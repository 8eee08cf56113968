# m5mic

The logic of a wireless microphone built on the M5StickS3: what the stick sends, what
the receivers make of it, and what the menu-bar app, the phone and the macOS audio
driver decide. Everything under `src/` is verified with Verus.

## `src/`

| Part | Modules |
|---|---|
| Wire format and codec | `bytes`, `frame`, `adpcm`, `fragment`, `metadata`, `text` |
| Remote control and discovery | `control`, `discovery` |
| Wi-Fi credentials over Bluetooth | `provision`, `ble_receiver` |
| Receiving audio | `pcm`, `receiver`, `decoder`, `virtual_mic` |
| The stick | `recording`, `session`, `wifi_config`, `setup`, `pages`, `power`, `i2c_bus`, `es8311`, `usb_audio`, `canvas`, `display` |
| The Mac | `coreaudio`, `statusbar`, `menu`, `networks`, `prompts`, `json` |

Each function states in its contract what it returns or changes. The properties that
span functions are the public proof functions whose names start with `law_`: that a
header decodes to what was encoded, that the receiver's ADPCM decoder stays in step
with the stick's encoder, that fragments give the frame back in whatever order they
arrive, that the ring buffer hands out what was written and silence otherwise, that a
recording is heard as it was made.

The library leaves a few computations to other crates: key derivation (`hkdf`,
`sha2`), encryption (`chacha20poly1305`), random bytes (`getrandom`), JSON
(`serde_json`) and UUIDs (`uuid`). Each such call stands in one small function marked
`external_body`, with a doc comment on what it relies on.

## `app/`

The programs around the library: sockets, files, shared memory, Core Audio, Bluetooth,
the menu bar and the stick's drivers. `app/macos` builds on macOS and `app/firmware`
for ESP-IDF. Floating-point sample conversion is done here.

## `tests/`

Ordinary tests of the library, on concrete values.
