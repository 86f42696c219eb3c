# yd_esp32_s3_audio_sd

Recorder and player for a YD-ESP32-23 (ESP32-S3) board: a short button press
records 8 kHz mono 8-bit WAV files to the SD card, a long press plays the
alphabetically first WAV file (8- or 16-bit PCM, mono or stereo).

- `src/` is the library, verified with Verus: button debouncing, the WAV
  header writer and chunk reader, PCM decoding, oversampling and input
  statistics, the decisions of the recording and playback loops, file-name
  selection on the card and the status LED colours.
- `app/` is the firmware around it: `main`, the native hardware calls, file
  I/O, logging and the floating-point filters, gain control and compressor.
- `tests/` runs the library on concrete inputs.
