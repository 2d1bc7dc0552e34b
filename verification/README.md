# swiftflow

The verified core of the SwiftFlow toolkit and its `swiftflow` command.

`src/` is a Verus library. Every function in it carries a contract;
Verus proves all of them except those of six small wrappers, each one
call into the standard library or a decoder crate, whose contracts are
believed as their doc comments say (`strs` and `decode`):

- `config` — `SwiftFlow.toml`: its sections, the capability vocabulary and
  how capabilities lower to Android permissions and iOS usage
  descriptions, identifier validation, pins.
- `project` — the SwiftFlow home, framework and cache paths, platforms,
  Swift identifiers and the files of a new project (`templates` holds
  their text).
- `toolchain`, `sdk` — what a build reads back from C headers, `nm`
  listings, Swift sources, Gradle scripts and installed Swift SDKs.
- `ime`, `keys`, `input` — text input, keyboard and touch handling for
  the hosts.
- `pacing`, `file_dialog` — the small state machines shared between a
  host's event loop and its callbacks.
- `decode`, `font`, `icon`, `dsu`, `node` — image decoding, the glyph
  atlas and word runs, the icon font, shape merging, node enumerations.
- `strs` — string specifications and helpers the rest is built on.

`app/` is the command itself: argument parsing, reading the TOML file,
the file system and the tools a build runs. Floating-point helpers of the
hosts live there too.

`tests/` runs the library with the real outside crates.
