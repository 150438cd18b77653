# maratui

The logic of a display and scale unit for an espresso machine: an ESP32 with an ILI9341 screen, a
push button, two HX711 load-cell amplifiers, Wi-Fi and MQTT.

`src/` is a library written in Verus. Every function there is verified against its contract, except
four small wrappers around calls of `std` and `ratatui`: `clock_now`, `clock_nanos`, `block_inner`
and `split_rows`. Their contracts are taken on trust.

| Module | What it holds |
|--------|---------------|
| `binary32` | single-precision arithmetic on bit patterns, proved correctly rounded |
| `button` | short, long, double and held presses |
| `hx711` | clocking samples out of the ADC, and averaging them |
| `scale` | calibration, the trimmed-mean filter, smoothing, the total of both cells |
| `screens` | what the calibration wizard shows, and where |
| `mqtt` | topics, delivery, reactions to events, the cup counter's payload |
| `setup` | booting, timers, watching the Wi-Fi |

Modules named `laws` (and `filter_laws`, `smoother_laws`, `cells_laws`, `order`, `sides`) state what holds across calls, as
proof functions.

The library never touches a pin, a socket or the flash. Times are nanoseconds on one monotonic
clock. Where hardware and decisions alternate, the library is a state machine that says what to do
next and takes note of what came of it.

`app/` is the ordinary Rust around it: pins, display, flash and network of the device. `tests/`
runs the library, its arithmetic against the processor's.
