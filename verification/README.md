# warp_ipfs

The document logic of a peer-to-peer messaging store, written in Verus: every
function under `src/` carries a contract and is proved against it, except the
small trusted wrappers (in `codec`, `clock` and `page`) around the outside
calls, whose contracts are taken as given.

## Layout

- `src/` — the verified library.
  - Documents and their checks: `identity` (identity documents), `conversation`
    (conversation documents, their signatures and exclusions), `message`
    (message documents, their lines, reactions, attachments and edits),
    `community`, `root_document`, `request` (friend-request payloads).
  - Stores: `reference` (the paged message reference list) with its laws in
    `reference_laws`, `keystore` (per-recipient keys of a group), `cache`
    (identity documents by DID), `root` (friends, blocks and requests),
    `events` (the event subscription queue).
  - Decisions of the store's tasks: `membership` (who may start, join, leave,
    delete), `group_admin` (renaming, adding and removing members),
    `messaging` (what an incoming message event does, and the checks on
    outgoing lines and downloads), `key_exchange`, `friends` (friend requests,
    friends and blocks), `identity_updates` (what is done with received
    identities), `identity_events` (what blocking and unblocking do to
    conversations), `lookup` (finding identities among the cached ones),
    `files` (upload quotas and progress), `image` (profile
    image limits), `discovery` (peer tracking and which discovery to run),
    `selection` (which messages a query returns).
  - Helpers: `did` (did:key text and Ed25519 keys), `text` (trimmed character
    counts), `assoc`, `keyed`, `page`, `limits`, `error`.
  - Trusted items, each a small wrapper around one outside call: `codec`
    (bs58, serde_json, uuid and chrono text, and std's lower-casing and
    lossy UTF-8 reading), `clock` (time and random ids),
    `page` (the `indexmap` page of a reference list).
- `tests/` — tests of the library on concrete values.
- `app/` — the wire forms of the request records (serde) and their
  conversions to and from the library's types.

Signing, signature checks and encryption depend on the caller's keys; the
library takes them as closures and states exactly what it hands them and what
it does with their answers. Reading and writing blocks, the network and the
async tasks are the caller's part: the library holds the decisions they make.
