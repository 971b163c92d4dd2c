# congo_ps

Firmware of a small ESP32-based bench power supply with a web interface.

- `src/` is the verified library (Verus):
  - `decimal`: parsing of unsigned decimal numerals, as `usize::from_str` accepts them;
  - `command`: the text commands of the web interface (`V:<volts>`, `I:<amps>`, `M:<0|1>`, ...);
  - `ws`: what the websocket session does on each message or batch of measurements;
  - `batch`: collecting measurement samples into batches of 16 for streaming, with the law
    that no sample is lost, duplicated or reordered;
  - `mppt`: the perturb-and-observe state of the maximum power point tracker.
- `app/` is the firmware around it: chip and Wi-Fi bring-up, the control loop with its
  floating-point control law and PID controllers, the ADC and PWM drivers, and the web server.
- `tests/` exercises the library on concrete values.
