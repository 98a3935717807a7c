# Command Runner

The backend of a Windows desktop tool that runs configured **PowerShell** and **SSH** commands and
streams their output line by line.

- `src/` is the library: what is run and how, what becomes of the output, how the configuration is
  sealed and who may change it, and which files are where. Its rules are verified with
  [Verus](https://github.com/verus-lang/verus); what it takes on trust is said below.
- `app/` is the program around it: the window, the disk, the processes and the connections. It is
  built on [Tauri](https://tauri.app/) 1.
- `tests/` runs the library, together with the crates that it calls.

## The library

| Module | What it is about |
| --- | --- |
| `ssh` | a conversation with a remote host, one event at a time |
| `powershell` | how PowerShell is started, and what becomes of its output |
| `lines`, `text` | output cut into lines, and what is trimmed of it |
| `exec` | lines and results as the front end gets them |
| `auth` | the administrator's password and sessions |
| `config`, `crypto` | the sealed configuration |
| `paths` | where the files are, and how a fresh installation gets them |
| `files`, `order` | the working folder: safe names, and the list of files in order |
| `encoding` | base64 and UTF-16 |

Hashing, sealing, base64 and random bytes come from `sha2`, `aes-gcm`, `base64` and `rand`, and a few
operations on text from the standard library. Each of these has a contract that is not proved: it says
what is taken from that function on trust.
