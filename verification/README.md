# smkvm

One keyboard and mouse across several computers: the pointer leaves the edge of
one screen and appears on the next, whichever machine that belongs to, and what
is copied on one machine pastes on another.

`src/` is the library, written in Verus: every decision the program takes, with
what it promises stated and proved. It knows nothing of sockets, displays, disks
or clocks. Events go in with a time; what is to be done comes out. `app/` is the
program around it: the command line, the network, the displays, the clipboard
of each platform, and the disk.

## What is proved

Each executable function says what it returns and how it changes its state,
over plain models: a `...View` of each type, and spec functions that say what
follows from each event. What spans functions is stated as proof functions,
beside the code or in a `..._laws` module of its own. Among them:

- everything held on a machine is let go of the moment it stops being in charge,
  and input reaches only the machine with the cursor (`client`, `server_laws`);
- contents asked for chunk by chunk arrive as they were, and nothing over the
  limit is kept (`exchange_laws`);
- a paste is answered, and answered once, whatever becomes of the copy or of the
  machine that has it (`paste_laws`);
- a piece of a file goes back to whoever asked for it, everyone who asked in
  their turn; no file is finished unless it is whole, nothing half written is
  left, and whoever pasted is told how it went (`transfer_laws`,
  `sharing_laws`);
- no name from another machine lands outside the directory files land in, and
  what is there already is not overwritten (`landing_laws`);
- text, HTML, pictures and lists of files survive the trip into the Windows form
  and back (`windows`, `html`, `image_laws`, `files_laws`);
- contents too large for one property of X11 arrive whole (`owner`, `selection`).

## The modules

| | |
|---|---|
| `server`, `client`, `daemon`, `hello`, `layout`, `control` | who has the cursor, what is held, which machines are here |
| `exchange`, `transfer`, `sharing`, `proto` | the clipboard and files, between machines |
| `survey`, `landing` | what is copied, and where it lands |
| `selection`, `owner`, `keeper`, `xdnd` | the clipboard and drags on X11 |
| `windows`, `windows_drag`, `html`, `image`, `files`, `clipboard` | the same on Windows, and its formats |
| `config`, `ini`, `barrier`, `paths`, `status`, `service`, `command`, `platform` | settings, places, reports, and starting at login |
| `order`, `table`, `text`, `bytes` | collections and text |

## What is taken on trust

PNG is read and written by the `png` crate, through three functions in `image`.
What is to be sent to a machine waits in two queues of the `tokio` crate, made
and filled through two functions in `daemon`.
From the standard library, `String::push`, the lossy readings of UTF-8 and
UTF-16, and the quoted form of a text are taken as documented. Each says in its
comment what is claimed of it.
