# aiocr

A desktop OCR toolkit whose decision logic is a library verified with Verus.

- `src/` — the verified library: dictionary handling and CTC best-path
  decoding, 4-connected component labelling of detection masks (labels are
  proved to be exactly the connected foreground regions), recognition-output
  layouts and batch planning, ONNX input-shape fixing, text layout and table
  rendering, line numbering, dataset label parsing and splitting, label
  repair, integer image operations used for augmentation, model naming, and
  the desktop front end's state machine (every panel action and background
  report, with what it asks the platform to do).
- `tests/` — tests of the library on concrete values.
- `app/` — the program around it: the egui window, background worker,
  ONNX inference through tract, image resampling and floating-point
  geometry, file formats and downloads, and the `prepare-hf-dataset`,
  `train-recognizer` and `eval-recognizer` tools.

Run `aiocr` for the window, `aiocr prepare-hf-dataset --dataset … --out …`
to build a dataset (`images/` plus `labels.txt`, one `name<TAB>text` per
line), `aiocr train-recognizer --dataset … --artifacts …` to fine-tune, and
`aiocr eval-recognizer --dataset … [--model …]` to measure accuracy.

This build carries no trainable recognition model: `train-recognizer`
reads its arguments and then stops with the "no trainable model" error
(`check_trainable_model`), and the recognizer that needs the built-in
weights reports itself unavailable.
