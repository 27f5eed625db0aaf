# openlaundry_backend

Backup service for a laundry point-of-sale app. Each account has one stored
backup holding four tables (customers, laundry records, laundry documents,
expenses), each kept as JSON text, gzip-compressed and base64-encoded. A
client sends its own tables in the same form; the service merges them into
the stored ones, record by record, keyed by uuid, keeping the most recently
updated version and dropping deleted records.

- `src/` is the library, verified with Verus:
  - `model.rs`: the record types and the `BaseModel` trait;
  - `sync.rs`: the merge of one table, its specification and its laws;
  - `codec.rs`: packing and unpacking of a stored table;
  - `backup.rs`: the stored backup of an account and the backup request.
- `app/` is the HTTP service (actix-web, diesel on SQLite): routes,
  database access, and JSON (de)serialisation of the tables.
- `tests/` exercises the library.
