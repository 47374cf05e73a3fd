# caramell

A cache whose nodes announce themselves to an MQTT broker and store what
clients ask of them in memcached.

- `src/` is the verified library (Verus): the `MEM;key;value;expiration`
  messages (`cache`, `server_cache`), the broker announcements and lists
  (`broker`), address text (`address`), text helpers (`text`), settings
  (`config`), contract records (`chain`) and the web front's fixed answers
  (`web`).
- `app/` is the program around it: the MQTT, memcached and HTTP connections,
  the configuration file, and the JSON forms of the library's values.
- `tests/` runs the library on concrete values.
