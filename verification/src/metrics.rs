use vstd::prelude::*;

use crate::text::{chars_of, string_from_chars, trim, trim_chars};

verus! {

broadcast use vstd::string::group_string_axioms;

pub open spec fn min2(a: nat, b: nat) -> nat {
    if a <= b {
        a
    } else {
        b
    }
}

/// Levenshtein distance: the fewest single-character insertions, deletions
/// and substitutions that turn `a` into `b`.
pub open spec fn edit_distance(a: Seq<char>, b: Seq<char>) -> nat
    decreases a.len() + b.len(),
{
    if a.len() == 0 {
        b.len()
    } else if b.len() == 0 {
        a.len()
    } else {
        min2(
            min2(
                edit_distance(a.drop_last(), b.drop_last()) + if a.last() == b.last() {
                    0nat
                } else {
                    1nat
                },
                edit_distance(a, b.drop_last()) + 1,
            ),
            edit_distance(a.drop_last(), b) + 1,
        )
    }
}

/// The distance never exceeds the longer length.
pub proof fn lemma_edit_distance_bound(a: Seq<char>, b: Seq<char>)
    ensures
        edit_distance(a, b) <= if a.len() >= b.len() { a.len() } else { b.len() },
    decreases a.len() + b.len(),
{
    if a.len() > 0 && b.len() > 0 {
        lemma_edit_distance_bound(a.drop_last(), b.drop_last());
    }
}

/// A text is at distance zero from itself.
pub proof fn lemma_edit_distance_self(a: Seq<char>)
    ensures
        edit_distance(a, a) == 0,
    decreases a.len(),
{
    if a.len() > 0 {
        lemma_edit_distance_self(a.drop_last());
    }
}

/// The distance is symmetric.
pub proof fn lemma_edit_distance_symmetric(a: Seq<char>, b: Seq<char>)
    ensures
        edit_distance(a, b) == edit_distance(b, a),
    decreases a.len() + b.len(),
{
    if a.len() > 0 && b.len() > 0 {
        lemma_edit_distance_symmetric(a.drop_last(), b.drop_last());
        lemma_edit_distance_symmetric(a, b.drop_last());
        lemma_edit_distance_symmetric(a.drop_last(), b);
    }
}

/// Character-level Levenshtein distance between two texts.
pub fn levenshtein_chars(left: &str, right: &str) -> (d: usize)
    requires
        left@.len() < usize::MAX,
        right@.len() < usize::MAX,
    ensures
        d == edit_distance(left@, right@),
{
    let l = chars_of(left);
    let r = chars_of(right);
    let m = r.len();
    let mut previous: Vec<usize> = Vec::new();
    let mut j: usize = 0;
    while j <= m
        invariant
            j <= m + 1,
            m < usize::MAX,
            m == r@.len(),
            previous@.len() == j,
            forall|q: int| 0 <= q < j ==> #[trigger] previous@[q] == edit_distance(
                seq![],
                r@.subrange(0, q),
            ),
        decreases m + 1 - j,
    {
        previous.push(j);
        j = j + 1;
    }
    let mut i: usize = 0;
    while i < l.len()
        invariant
            i <= l@.len(),
            l@ == left@,
            l@.len() < usize::MAX,
            m == r@.len(),
            m < usize::MAX,
            previous@.len() == m + 1,
            forall|q: int| 0 <= q <= m ==> #[trigger] previous@[q] == edit_distance(
                l@.subrange(0, i as int),
                r@.subrange(0, q),
            ),
        decreases l@.len() - i,
    {
        let ghost a = l@.subrange(0, i + 1);
        assert(a.drop_last() =~= l@.subrange(0, i as int));
        let mut current: Vec<usize> = Vec::new();
        current.push(i + 1);
        proof {
            assert(r@.subrange(0, 0) =~= Seq::<char>::empty());
        }
        let mut q: usize = 0;
        while q < m
            invariant
                q <= m,
                m == r@.len(),
                m < usize::MAX,
                i < l@.len(),
                l@.len() < usize::MAX,
                a == l@.subrange(0, i + 1),
                a.drop_last() == l@.subrange(0, i as int),
                previous@.len() == m + 1,
                forall|z: int| 0 <= z <= m ==> #[trigger] previous@[z] == edit_distance(
                    l@.subrange(0, i as int),
                    r@.subrange(0, z),
                ),
                current@.len() == q + 1,
                forall|z: int| 0 <= z <= q ==> #[trigger] current@[z] == edit_distance(
                    a,
                    r@.subrange(0, z),
                ),
            decreases m - q,
        {
            let ghost b = r@.subrange(0, q + 1);
            assert(b.drop_last() =~= r@.subrange(0, q as int));
            proof {
                lemma_edit_distance_bound(a, r@.subrange(0, q as int));
                lemma_edit_distance_bound(a.drop_last(), b);
                lemma_edit_distance_bound(a.drop_last(), b.drop_last());
                lemma_edit_distance_bound(a.drop_last(), r@.subrange(0, q as int));
            }
            let cost: usize = if l[i] != r[q] {
                1
            } else {
                0
            };
            let substitution = previous[q] + cost;
            let insertion = current[q] + 1;
            let deletion = previous[q + 1] + 1;
            let mut best = substitution;
            if insertion < best {
                best = insertion;
            }
            if deletion < best {
                best = deletion;
            }
            current.push(best);
            q = q + 1;
        }
        previous = current;
        i = i + 1;
    }
    assert(l@.subrange(0, l@.len() as int) =~= l@);
    assert(r@.subrange(0, m as int) =~= r@);
    previous[m]
}

/// What one recognized sample adds to an evaluation: whether prediction
/// and target agree once trimmed, their edit distance, and the length of
/// the trimmed target.
pub struct SampleScore {
    pub exact: bool,
    pub edit_distance: usize,
    pub target_chars: usize,
}

/// Scores a prediction against its target, both trimmed of surrounding
/// whitespace.
pub fn score_sample(prediction: &str, target: &str) -> (score: SampleScore)
    requires
        prediction@.len() < usize::MAX,
        target@.len() < usize::MAX,
    ensures
        score.exact == (trim(prediction@) == trim(target@)),
        score.edit_distance == edit_distance(trim(prediction@), trim(target@)),
        score.target_chars == trim(target@).len(),
{
    let p = trim_chars(chars_of(prediction).as_slice());
    let t = trim_chars(chars_of(target).as_slice());
    proof {
        crate::text::lemma_trim_len(prediction@);
        crate::text::lemma_trim_len(target@);
    }
    let ps = string_from_chars(p.as_slice());
    let ts = string_from_chars(t.as_slice());
    let exact = crate::session::same_text(ps.as_str(), ts.as_str());
    let edit_distance = levenshtein_chars(ps.as_str(), ts.as_str());
    SampleScore { exact, edit_distance, target_chars: t.len() }
}

} // verus!
