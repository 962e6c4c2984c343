# wstm

A music visualiser: it listens to an audio device, analyses the spectrum of
what it hears, and drives a GPU feedback shader whose patterns cross-fade in
time with the music.

The crate is split in two.

- `src/` is the verified library (Verus). It holds the integer and text logic
  of the visualiser, each function with a contract:
  - `config`: the interface themes and visual presets;
  - `pattern`: which pattern is shown, which one is blended in next, and the
    pseudo-random draws behind their parameters;
  - `ring`: the sample buffer between the audio callback and the analyser;
  - `spectrum`: transform sizes and the frequency band of each spectrum bin;
  - `devices` and `text`: the sorted catalogue of audio devices, the default
    device, and how a chosen label selects an input device;
  - `frame`: the sample window uploaded to the GPU, surface sizes, pipeline
    selection and the alternation of the feedback textures;
  - `events`: how the window reacts to close, resize and Escape.
- `app/` is the program around it: audio capture, the FFT and the
  floating-point metrics, configuration files, the user interface and the GPU
  renderer.
