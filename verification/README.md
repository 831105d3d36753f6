# ssd1683

Frame buffers, drawing and refresh planning for e-paper panels with SSD1683
controllers, one or two in cascade, with or without red. The library is verified
with Verus.

The library performs no I/O. `Graphics::update` decides which refresh is due and
returns it as a `Script`, a list of resets, commands, data transfers and waits. The
caller performs the steps in order. If all of them succeed it calls
`Graphics::finish_update` before it draws again, which gives the script that puts the
controller to sleep; if one fails the rest is skipped, and what was drawn goes into the
next update.

- `src/color.rs`: panel colours, and RGB colours reduced to them
- `src/config.rs`: panel geometry
- `src/command.rs`, `src/script.rs`: what a refresh is made of
- `src/tools.rs`: the place of a pixel in a buffer, and the changed area of one
- `src/model.rs`: what a display is and does, as mathematics
- `src/graphics.rs`: the display
- `src/laws.rs`: what holds of the library as a whole
- `app/`: a draw target for `embedded-graphics` that performs the scripts
