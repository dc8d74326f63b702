# Radioband

A receiver for RTL-SDR dongles (RTL2832U with an R820T tuner) that runs in the
browser. The library in `src/` holds the driver's protocol, the signal
processing, the waterfall and the behaviour of the user interface; Verus proves
each function against its contract. `app/` connects it to the browser: WebUSB,
Web Audio, the canvas, the page and the web worker.

## The library

- `wire`, `transfer`: byte order, bit order and USB requests.
- `tuner`, `demod`: what the two chips are told for a frequency, a gain, an
  intermediate frequency and a sample rate.
- `operation`: sequences of register accesses, carried out one request at a
  time; the caller performs each request and hands back its reply.
- `receiver`: the commands of the receiver.
- `dongle`: a model of the dongle, and proofs of what the commands leave in it.
- `arithmetic`: the operations on numbers that the signal processing is written
  over. The library holds no floating point; the application brings single
  precision for the signal and double precision for the display.
- `filter`, `demodulate`, `spectrum`, `colour`, `waterfall`, `pipeline`,
  `config`: from raw samples to spectrum, waterfall and audio.
- `regular`: what holds of the signal processing where numbers behave as numbers
  do. For example, in the FM modes two blocks processed one after the other give
  the audio of both at once, if the first holds whole samples and fills whole
  decimation periods; and a colour never moves back along the gradient as the
  level rises.
- `mock`, `worker`: made-up samples, and the state behind the web worker.
- `display`, `ui`, `number`: layout and labels of the display, state of the user
  interface, whole numbers in text.

## Signal processing

| Mode | IQ cutoff | IQ decimation | Intermediate rate | Deviation | Audio decimation |
|------|-----------|---------------|-------------------|-----------|------------------|
| WFM  | 120 kHz   | 10            | 240 kHz           | 75 kHz    | 5                |
| NFM  | 8 kHz     | 50            | 48 kHz            | 5 kHz     | 1                |
| AM   | 5 kHz     | 50            | 48 kHz            | -         | 1                |

The decimations hold at 2.4 million samples per second. De-emphasis (50 µs)
applies in WFM, at the audio rate of 48 kHz.
