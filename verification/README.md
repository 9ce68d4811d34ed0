# recognition

Recognition of match boundaries in recorded game videos, and the tooling
around a phase dataset (sampling frames, labelling, exporting for YOLO,
training a detector).

- `src/` is the verified library (Verus). Each public function states its
  result in its contract; the proof functions state the properties that hold
  across calls (normalisation is idempotent, rebalancing brings negatives to
  twice the positives and is idempotent, sample points of any video shorter
  than `EXACT_SPREAD_LIMIT` increase strictly, and
  so on).
- `app/` runs the commands: it reads and writes files, calls ffmpeg,
  tesseract, Ultralytics and ONNX Runtime, and does the image processing,
  which works on floating-point values. It hands the library plain values:
  `f32` coordinates as bit patterns (`f32::to_bits`) and confidences or
  similarities as order keys that compare as the values do.
- `tests/` exercises the library on concrete inputs.

Modules of the library:

| module | contents |
| --- | --- |
| `text` | characters, trimming, ASCII case folding |
| `phase` | phase labels, normalisation, class ids and default regions, time-based guess |
| `preview` | OCR preview, OCR field cleaning, tails of logs |
| `format` | decimal and hexadecimal rendering |
| `names` | processed marker, result file names, extensions and stems, accepted file types |
| `digest` | MD5 sample ids and the train/validation split |
| `binary64` | the rounding of `f64` division, multiplication and `round()`, computed exactly on integers |
| `sampling` | sample points (as `f64` arithmetic computes them), extraction workers, frame stepping |
| `rank` | positions in a stable sort, and counting facts about them |
| `dataset` | sample records, which sample points become new samples, rebalancing, label and phase corrections |
| `detection` | model output shapes, box layout, greedy suppression, model modes |
| `paths` | joining and parent directories through `std::path` |
| `recognition` | options, which videos are recognised, candidate categories, frame-by-frame state |
| `training` | training options, command lines and result |
| `commands` | ffmpeg and tesseract command lines |
