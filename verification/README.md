# lkpm

The tools of a small Linux distribution: `lkpm` installs, updates and deletes
packages, `lkmake` builds them, `lkinit` builds the image that starts the system,
`lkchroot` enters another root, `lkchroot-plain` does so with what can be mounted, and
`init` is the first program of the image.

`src/` is a library that holds their logic and is verified with Verus. It reads no
files, runs no programs and talks to no network: it is given what was found and says
what is to be done. `app/` does the rest; which tool runs is told by the name that
the program is started under. `tests/` runs the library on concrete values.

| Modules | What they hold |
| --- | --- |
| `text`, `path`, `rawpath`, `json`, `hash`, `url`, `archive` | text, Unix paths as text and as bytes, and what is called in other crates |
| `cli`, `config`, `error`, `ui` | arguments, configuration, messages, reports |
| `repo`, `downloader` | names, addresses and indexes of packages; downloads |
| `pkg_utils`, `hooks`, `staging`, `extract` | package archives, install scripts, where files go, and how that is undone |
| `database`, `manager`, `plan`, `batch`, `removal`, `session`, `progress` | what is installed, what a command is to do, and in which order |
| `lkmake`, `making`, `recipe`, `readback` | building packages, and that what is written is read back |
| `lkinit`, `init`, `chroot`, `lkchroot` | starting the system, and working inside another root |
