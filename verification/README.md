# Aria

Aria plays osu! storyboards and autoplay as the wallpaper of a Windows desktop, with the music of
the beatmap and its hit sounds. One program runs twice: as a window with a tray icon that keeps the
settings, the library and the play list, and as a renderer that the window starts and speaks to in
lines of JSON.

`src/` is the library: what is decided, parsed and kept, verified with Verus.

- `ieee`, `text`, `seqs`, `sorting`, `paths`: numbers as bits, texts, and what the rest is built on.
- `realm`, `lazer`, `stable`, `cover`, `skins`: the libraries of osu!lazer and osu!stable.
- `playlist`, `pathcache`, `settings`, `controls`, `commands`, `ctl`: what the window keeps and does.
- `ipc`, `clock`, `audio`, `scene`, `vfiles`, `wav`, `loader`: what the renderer works with.
- `wall`, `dispatch`, `loading`, `session`, `playback`: the state of the renderer. Each function
  says what becomes of the state and hands out, in their order, the actions to be done.
- `win`: putting a window behind the icons of the desktop, step by step.
- `logging`: which lines are logged, and how they read.

Numbers with a fraction are held as their bits: they are compared, clamped and stored in the
library, and computed with outside of it.

`app/` is the program around the library: windows, sound, files, processes and the formats in which
values are stored and sent. `tests/` runs the library.
