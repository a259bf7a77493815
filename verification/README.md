# vidimg

A terminal viewer for pictures and videos, with a search screen for online
videos. The library in `src/` holds what the viewer decides and computes, each
function with a proved contract. `app/main.rs` drives the terminal, the files, the helper
processes (ffprobe, ffmpeg, mpv, yt-dlp) and the clock, and asks the library at
every step.

- `media`: which kind of media a path names.
- `picture`: decoding pictures (through the `image` crate) and which terminal cell shows which pixel.
- `clock`: the clock, progress bar and volume text of the status bar.
- `player`: the video player's reaction to keys.
- `gallery`: browsing a folder.
- `youtube`: the search command, its listing, and the search screen.
- `commands`: the helper commands of the player and the reading of the frame rate.
- `cli`: the command line.
- `keys`, `text`: key codes and character helpers.

Color conversion and scaling work in floating point and stay in `app/`.
