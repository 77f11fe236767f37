# btc_node

A Bitcoin testnet node and wallet. The library (`src/`) holds everything the
node decides and computes, each function with a contract proved by Verus:

- the wire formats of transactions, blocks and peer-to-peer messages, with
  laws that every value is read back from its own bytes;
- proof of work, Merkle roots and proofs of inclusion, with the laws that a
  proof built for a transaction of a block leads to the block's root, each
  pair holding the running hash on the side the path comes from;
- the set of unspent outputs, the wallet's balance and pending transactions,
  signed payments;
- what the node answers each message with and the messages that carry the
  answer (a request for data only for a list that is not empty), the plan
  of the initial download and the choice of the next peer to try, and the
  files the chain is kept in (saved headers and blocks read back);
- hexadecimal text of bytes, with the law that it decodes back to the bytes;
- the parsing of the configuration, one field for each name.

`app/` is the program around it: it reads the configuration file, talks to
the peers over TCP, keeps the log, and reads the wallet's requests from the
standard input. `tests/` runs the library on concrete values.
