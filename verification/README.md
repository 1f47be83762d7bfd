# finality_pbft

A PBFT finality gadget: the data, the rules and the wire formats by which a set of authorities
votes on blocks in views and finalizes them.

* `src/` is the library, verified with Verus. Its contracts say what each function returns, and
  the public proof functions named `law_..` say what holds of several of them together.
* `tests/` runs the library.
* `app/` is what surrounds the library in a node: the keystore, the network, the client, the
  metrics, and the locks.

The modules of the library:

| module | what it holds |
| --- | --- |
| `messages`, `votes`, `ids`, `keys` | votes, identifiers and well-known keys |
| `scale`, `fields` | the SCALE encoding, with what it reads back and what it says of what it cannot read |
| `payload` | signing and checking of votes, localized to a view and a set |
| `voters` | the voters of a set, and the local one among them |
| `pending`, `authorities` | the authority set and its pending changes |
| `completed`, `voter_set_state` | completed views, and the state of the voter |
| `aux_schema` | what is kept on disk between runs |
| `topics`, `gossip`, `protocol_name`, `notification` | what goes over the network, and under which names |
| `finalize` | finalizing a block, with the changes of the authority set |
| `target` | the block to vote on next |
| `environment` | a view from its beginning, and the commands to the voter |
| `import` | setting up the import of blocks, with hard forks of the authority set |
| `leader_info`, `consensus_log` | the Jasmine leader, and the signals that blocks carry |

Calls into other crates stand behind functions marked `external_body` or behind
`assume_specification`, each with a doc comment that says what is taken for granted.

`substrate-bip39` is pinned because `sp-core` 6.0.0 depends on it and does not build with its
later releases.
