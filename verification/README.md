# bizbuz

Digital business cards: what is on a card, how it is drawn as SVG and written
as a vCard, which base it is published on, and how everything published is
taken down again. The library is written in Rust and verified with Verus: each
function states what it returns, and the laws that span functions are proved
beside them.

| Module | What it holds |
|---|---|
| `card` | cards, and the store that keeps up to four of them |
| `svg`, `wrap` | drawing cards and the invitation; breaking text into lines |
| `vcard` | cards for address books, with folded lines |
| `base` | the fifty state bases, and the pin that keeps an install on one |
| `keys` | the key pairs that records are published under |
| `publish` | publishing a card, share links, taking records down, deleting |
| `referral` | the link that invites others to the app |
| `reset` | forgetting everything, once nothing is published any more |
| `linkitylink`, `platform` | taking over a Linkitylink card; platforms and handles |
| `canonical` | the profile that the apps of the family share |
| `clock` | ids and time stamps |
| `strmap`, `text` | a map keyed by strings; text as sequences of characters |

`app/` is the application around the library: files, calls to the services,
JSON, and the commands of the user interface. `tests/` runs the library on
concrete values.

The laws are the public proof functions whose names start with `law_`. What the
proofs rest on without proof are the contracts of a few functions of std,
`hex`, `secp256k1` and `sessionless`, each declared next to where it is used.
