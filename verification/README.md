# GPW Uploader

A desktop program that uploads tracks to Ghost Producer World. It reads an export
folder, recognises the files by their names, converts the masters to MP3, measures
the audio, and sends everything to the site.

`src/` is the verified library: the rules of the program, with contracts that
Verus proves. What is computed in floating point (levels in decibels, loudness in
LUFS, the vocal estimate) is not among them and stands in `app/`.

| Module | What it decides |
|---|---|
| `classify`, `scanner` | what a file is, which field of the form takes it, the order of the list |
| `parts` | how a file is cut into parts of 64 MiB |
| `upload`, `upload_laws` | every step of attaching a file, and what holds of all the ways it can go |
| `control`, `request` | when a call is repeated, what it carries, what its failure says |
| `draft` | what comes of creating a draft |
| `progress` | what the progress bar shows, the media types |
| `converter` | how LAME is called and judged |
| `qc` | which samples are loud, when a block is complete, how stems are summed |
| `wav` | the first seconds of a WAV file, as a WAV file |
| `crypt` | the saved session, and the files that it lies in |
| `commands` | the health check and the profile |
| `json`, `text` | JSON values and texts |

`app/` is ordinary Rust around it: disk, network, audio decoding, and the window.
The window is built with Tauri, for Windows; everything else in `app/` is
independent of the system.

`tests/` runs the library.
