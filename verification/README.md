# forty_two_sniper

Watches 42Space market creation events on BNB Chain and submits an early
`swapSimple` mint through the 42 router.

The decisions stand in `src/`, where Verus proves them against their contracts;
`app/` performs the requests, the transactions and the file access around them.

| module | what it decides |
| --- | --- |
| `text`, `u256`, `address`, `json`, `urls` | texts, 256-bit integers, addresses, JSON records and URLs |
| `fields`, `config` | what the fields of a configuration stand for, its checks, its overrides and what of it is shown |
| `watch` | which announced markets are bought |
| `abi`, `execution` | the calls and the transactions that buy and approve, and whether they are sent |
| `price`, `commands` | what a sale would yield, and the records that are kept of it |
| `scan`, `validation` | which past sales are compared with quotes, and what the comparison finds |
| `log_audit` | what the logs of validations hold |
| `rate_limit`, `latency` | the pace of requests, and the record of how long the stages took |

What the library takes from other crates (256-bit arithmetic and ABI encoding
from `alloy`, JSON from `serde_json`, URLs from `url`) stands behind functions
whose contracts say what is relied on.

By default nothing is sent: `dry_run` is on until it is switched off.
