# frontend

The desktop front end of a PlayStation emulator and its level editor: which
controller drives which port, what a key or a click does, when the next frame is
due, what a disc image of a project looks like, what the debug server answers,
how textures are laid out in video memory, and which triangles and lines the
editor's preview shows of a level.

The rules are a library in Verus, under `src/`. Every function states what it
returns in its contract, and properties that span several functions are public
proof functions whose names start with `law_`.

- `input`: buttons, pads, keyboard bindings, ports
- `shell`: events, frames, redraws, the picture on the screen, counters
- `playtest`: the editor's play session
- `disc`: names, system area, cue sheets, audio tracks, chunk order
- `debug`: memory, screenshots and the commands of the debug server
- `textures`: patterns, upload plan, video memory
- `preview`: camera, rooms, portals, materials, clipping, overlays

`app/` holds the window, the graphics device, gamepads, files and the network.
`tests/` runs the library.
