# snmp_dc

The verified core of an SNMP data collector that polls the attributes listed
in a `POLLEDDATA` table and bulk copies the values into `STATSDATA`.

- `src/` (Verus): OID parsing (`oid`), decimal rendering (`decimal`), the
  GetRequest for an attribute (`request`, through the `snmp` crate's encoder),
  readings built from response values (`reading`) and from response datagrams
  (`response`, through the `snmp` crate's decoder), the database server's value
  buffer, round-robin hand-out and queries (`collector`), the steps of a
  collection cycle (`schedule`) and the configuration model (`settings`).
- `app/`: the program around it: configuration files, logging, UDP sockets,
  PostgreSQL and the actix actors that perform what the library decides.
- `tests/`: scenarios and concrete instances of the proved laws.
