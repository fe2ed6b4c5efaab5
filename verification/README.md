# cpldicy_plugin

A verified model of the CPLDIcy I2C card: a PCF8584 bus controller behind a
Zorro II window, and a virtual I2C bus of devices on it (port expander, 24Cxx
memory, LM75, LTC2990, BMP280, BME680 and AM2320 sensors, four clocks, a
character display, and a MAX31760 fan controller).

- `src/` is the library. Everything in it is proved with Verus: each function
  against its contract, and the laws that relate functions as public proof
  functions beside them.
- `tests/` runs the library on concrete values.
- `app/` is the plugin around the library: the host's calls, its settings and
  files, and the conversions between physical units and the integers that the
  devices hold.

## Where to start

`board::BoardView` is what a board holds; `Board::read`, `write` and `tick` are
stated over it. `transactions` says what a driver achieves through the window:
that a whole transmit transaction delivers every byte to the device addressed,
that a receive transaction gives what the device gives (behind one dummy read),
that nobody answers at an empty or unplugged address, and that what is stored
in the memory reads back.

## What is taken on trust

Three facts about the standard library, all in `text`: what `String::push`
appends, what `String::from_utf8` makes of bytes, and that formatting a string
with `{:?}` depends on the string alone.

## Settings

| Key | Default | Meaning |
|---|---|---|
| `pcf8574`, `ltc2990`, `fan` | `true` | fitted by default |
| `eeprom`, `lm75`, `pcf8583`, `ds1307`, `ds1629`, `r2025`, `lcd`, `bmp280`, `bme680`, `am2320` | `false` | fitted on request |
| `eeprom_size` | `4096` | bytes of memory |
| `eeprom_image` | none | file: initial contents of the memory |
| `lcd_columns` | `16` | characters per row |
| `ltc2990_address`, `pcf8583_address`, `fan_address` | `0x4C`, `0x50`, `0x50` | 7-bit addresses |
| `pcf8583_time`, `ds1307_time`, `ds1629_time`, `r2025_time` | none | `YYYY-MM-DD HH:MM:SS` |
| `scenario` | none | file: a script |

A script has one event per line, `<cck> <verb> <arguments>`; blank lines and
lines that start with `#` are skipped.

```
0 set ltc2990.tint 25.0
1000000 set ltc2990.tint 60.0
2000000 fault fan stuck_rotor
```
