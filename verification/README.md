# orgb

Control of motherboard RGB lighting, for Colorful boards that speak the 0x88
framebuffer protocol over HID feature reports.

- `src/` is the library, verified with Verus: board profiles and how they are
  checked and chosen (`config`), the LED topology a profile gives (`board`),
  the 0x88 report encoding (`drivers::colorful`, and the fixed 602-LED layout in
  `backend`), color arguments (`color_arg`), the frame clock of effects
  (`scheduler`), and the board identity reported by the firmware (`smbios`).
- `app/` is the command-line program around it: reading SMBIOS and profile
  files, USB transport, rendering effects, and the effect loop.
- `tests/` runs the library on concrete boards, frames and arguments.
