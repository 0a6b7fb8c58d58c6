# wicci_shim

The Wicci shim sits between a browser and a PostgreSQL-based Wicci web
server: each HTTP request is re-encoded as bytes, handed to a database
service function, and the rows that come back are turned into the HTTP
response.

- `src/` is the verified library (Verus): byte and text handling
  (`text`, `strings`), HTML for debugging pages (`html`), option lookup and
  SQL/connection strings (`options`), request re-encoding (`tinier`), row
  decoding into responses (`response`), the echo mode's answers (`echo`)
  and the requests for trying the service function by hand (`selftest`).
- `app/` is the program around it: command-line parsing, the database
  connection, the HTTP server and the worker threads.
- `tests/` runs the library on concrete values.
