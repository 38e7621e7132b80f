# hadrond

The cluster logic of Hadron, a distributed event streaming platform, written in Verus and
proved against its contracts.

- `src/` is the verified library: authorization (`auth`, `token`), the placement of stream and
  pipeline replicas (`placement`, `load_order`, `cpc`), peer discovery and the peer socket table
  (`discovery`, `network`), the cluster and core indices (`index`, `core_index`, `strmap`), the
  Raft log kept on disk (`raftlog`), the layout of data on disk (`database`, `codec`,
  `schema_keys`), the routing of client requests (`route`, `crc`), the stream partition
  controller (`spc`), and the Kubernetes controller's pod records (`bookkeeping`).
- `app/` is the node program around the library: configuration from the environment, logging,
  the sled database, the node ID file, DNS discovery, and the DDL parser.
- `tests/` exercises the library on concrete values.
