# lightd

The core of a daemon that runs containers, written in Rust and verified with Verus, and the
ordinary Rust around it.

Containers are disposable shells around volumes. A container has a uuid for life; the id that it
runs under changes whenever it is recreated, and every change of its configuration recreates it.

## The library (`src/`)

Nothing in the library waits, reads or writes. What needs the outside world is a job: it hands
out the next actions or questions and is told what came of them. Its contract is a function from
a phase and a reply to the next phase and actions.

| Modules | What they are about |
| --- | --- |
| `container_lifecycle`, `recreation`, `installation`, `place`, `actions` | recreating, installing and reinstalling containers |
| `network`, `port_binding`, `port_list` | port bindings and allocations |
| `filesystem_direct`, `file_plan`, `volume_path`, `host_path` | operations on the files of a container |
| `disk`, `disk_path`, `archive`, `written_place`, `zip_archive`, `zip_unpacking`, `zip_round_trip` | what those operations come to on a disk, for laws on operations that follow one another |
| `listing`, `order`, `mimetype`, `utf8_cut`, `file_mode` | listings of directories |
| `monitoring`, `time` | histories of metrics, billing, amounts |
| `auth`, `remote` | authorisation of requests, messages to the panel |
| `models`, `text`, `bytes`, `number` | shared records, texts, bytes and numbers |

Properties that span several functions are public proof functions whose names begin with `law_`.
Functions of chrono, mime_guess and the standard library that Verus knows nothing of stand behind
small wrappers, each with a contract that its doc comment explains.

## Around it

`app/` performs what the jobs ask for: HTTP handlers, Docker, the file system, archives, the
panel, and everything that is calculated in floating point. `tests/` runs the library.
