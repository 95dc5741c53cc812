# shasha

`shasha` creates Git commits that contain their own abbreviated object ID. It
writes a candidate prefix to `.shasha`, mines a nonce in the commit message, and
only publishes the commit when its object ID starts with that prefix.

The program and its path rules are for Unix.

## Layout

- `src/` is the library, verified with Verus. It reads and writes nothing: it
  decides and computes, and its contracts say what.
- `app/` is the program around it: the command line, files, Git commands and
  mining threads.
- `tests/` runs the library.

| Module | What it holds |
| --- | --- |
| `options` | what to commit, and which options are refused |
| `path` | Unix paths as byte strings; which version files are accepted |
| `discovery`, `config`, `repository` | how a repository is found and laid out |
| `refs` | HEAD, references and their updates |
| `target`, `loose` | which prefix is chosen, and whether it is in use |
| `commit` | the bytes of a commit object |
| `hash`, `prepared`, `miner` | digests, hashes prepared for many nonces, the search |
| `preparation` | the checks before anything is written |
| `flow` | the way of a commit from its target to the reference it moves |
| `report` | what the command line takes and prints |
| `text`, `hex`, `format`, `git` | what the others are made of |

## What is proved

- A commit is published only under an ID that is the digest of its own object
  and starts with the prefix in its version file (`flow`).
- A commit that was mined as requested passes every later test (`flow`).
- Hashing with prepared blocks gives the digest of the whole object
  (`prepared`), and the object that is mined is the object that is stored
  (`commit`).
- Workers share the nonces out: each nonce is tried by one worker, once.
  However they take turns, what they come to together is a nonce that wins, the
  first of its worker, or that there is none (`miner`).
- A write is asked for behind the checks and not before (`preparation`).
- Where HEAD leads to a published commit, the next commit's one parent is that
  commit, and the next update expects its ID (`flow`).
- A chosen prefix is the first that is not in use (`target`).
- Searches for a repository, a reference, a loose object or a symbolic link come
  to what the file system holds, whatever it holds (`discovery`, `refs`,
  `loose`, `path`).

What the proofs rest on is marked in the source: the compression functions and
digests of `sha1` and `sha2`, the zlib encoder and decoder of `flate2`, and a
few functions of the standard library.
