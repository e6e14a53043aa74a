# ak1

A driver for the Native Instruments Audio Kontrol 1 on Windows: a kernel driver
that streams over USB, an ASIO driver on top of it, a control panel, a setup
program and two tools. What they decide and compute is verified with Verus; what
they say to Windows is ordinary Rust around it.

## Layout

`src/` is the verified library.

- `proto`, `mode2`: the commands and the audio packets of the device.
- `rt`, `audio`, `stream`, `circuit`, `usb`, `status`: the kernel driver. Streams
  keep rings of packets, share the device's one clock, and are fed by an engine
  that answers each capture transfer with a playback transfer of the same packet
  lengths.
- `abi`, `com`, `driver`, `duplex`, `server`, `settings`: the ASIO driver, from
  its answers to hosts to the frames between host buffers and endpoints.
- `panel`, `template`: the control panel.
- `setup`: installing and removing everything.
- `probe`, `host`: the tools.
- `bytes`, `text`: numbers and text that the others share.

`tests/` runs the library on concrete values.

`app/` is the rest: `main.rs` for the programs and the ASIO driver's entry points
(`asio.rs`), and `kernel/driver.rs` as the root of the kernel driver. It builds on
Windows with the `windows` crate and, for the kernel driver, the Windows Driver
Kit. The kernel driver is `no_std`: linking it takes a build of the library in
which `alloc` stands for the parts of `std` that its modules use.

## What is proved

Every public function states what it returns or changes, and that it does not
overflow, index out of bounds or panic where its precondition holds. Functions
named `law_...` state what holds of several of them together, for example that
decoding a clean capture packet gives back the frames it was made from, that
streams which run at the same time share one sample rate, or that saved settings
load again.

Two calls into `windows-core` are trusted: the conversion of a Win32 error code to
an `HRESULT` and the text of a GUID. Both stand in `com`.
