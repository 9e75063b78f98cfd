# segmenter

Video matting with Robust Video Matting models: a video is read frame by frame, a
model turns each frame into a mask, and the masks are written as a video.

`src/` is the library, verified with Verus:

- `frame`: BGRA frames, timestamps and right-angle rotations
- `decoder`: MP4 boxes, timestamps on a frame grid, strides, resizing, NV12
- `encoder`: NV12 conversion, frame durations, encoder settings
- `onnx`: reading and patching ONNX models, tensors and masks, sessions
- `engine`, `path`, `platform`, `progress`, `sampling`, `text`, `fixed`
- `processing`: running a video in one thread or in three
- `pipeline`: the three threads taken together: their order, their end and their outcome

Floating-point arithmetic is handed to the library as functions on bit patterns.

`app/` is the program around it: arguments, files, threads, Media Foundation,
AVFoundation, Metal and ONNX Runtime, and the floating-point functions.
`tests/` exercises the library with the real outside crates.
