# libbuf

The decisions behind `bufusb`, a flasher for bootable USB drives, as a verified library.

- `src/` is the library. It lists devices, checks requests, picks a mode, lays out drives, builds
  partition tables, caches sectors and words its messages. It never touches a device: its
  functions take what was found out and say what to do next. Every verified function carries a contract,
  and the promises that span functions stand as public proof functions beside them.
- `app/` performs what the library asks for: files, devices, commands, the terminal.
- `tests/` runs the library on concrete values.

Where to find what:

| Module | What it decides |
|--------|-----------------|
| `mode` | which mode an image supports, and which one to pick |
| `validate` | whether a raw write may start |
| `writer`, `align` | how an image is cut into padded blocks |
| `copy`, `ntfs`, `tree`, `walk`, `label`, `eltorito` | how an image's files get onto a new filesystem |
| `gpt`, `guid`, `crc`, `gpt_laws` | the bytes of the partition table |
| `cache`, `partition`, `position`, `cache_laws` | how sectors are cached and windows bounded |
| `list`, `table`, `plist`, `human`, `wide` | which devices there are, and how they are shown |
| `device`, `mount`, `privilege`, `logger`, `platform` | what the system's answers mean |
| `text`, `fields`, `numbers`, `bytes` | the primitives that the others are stated over |
