# runix_update

The logic of the RunixOS update stack, verified with Verus, and the programs
around it.

`src/` is the library. Its functions state what they return in contracts that
Verus proves; the laws that relate several functions are the public proof
functions whose names begin with `law_`.

| module        | what it holds                                                        |
|---------------|----------------------------------------------------------------------|
| `bootctl`     | A/B boot-control state, slot selection, rollback, the 64-byte block   |
| `rignite_sim` | the decisions of the boot simulator                                   |
| `chunk`       | content-defined chunking and reassembly from a chunk store            |
| `protocol`    | versions, manifests and their signed envelopes                        |
| `signing`     | Ed25519 over plain byte arrays                                        |
| `deployment`  | deployment names, mount keys, and the pull of a deployment            |
| `init`        | the kernel command line, and the stages and steps of stage-0 init     |
| `rum`         | what the update client decides in `check` and `apply`                 |
| `digest`, `encoding`, `text` | SHA-256, hexadecimal and base64, text                  |

What an outside crate computes (SHA-256, Ed25519, base64, hexadecimal, the cut
points of FastCDC) enters through a few small functions marked
`#[verifier::external_body]`. Verus believes their contracts and does not prove
them; their doc comments say what is taken on trust. Two of them, which fetch the
text of an I/O error and of a JSON error, state nothing.

`app/` is ordinary Rust: arguments, files, network, mounts, JSON and the composefs
repository. The binary picks its program by the name it is called by: `rum`,
`init` or `rignite-sim`.

`tests/` runs the library.
