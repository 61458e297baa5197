# captain-mast

A standalone MQTT broker with Mosquitto-style configuration, password and
access-control files, and an optional threat monitor that blocks clients with
repeated authentication failures.

## Layout

- `src/` is the library, verified with Verus. It decides and computes: it reads
  the configuration (`config`), the passwords and access-control rules
  (`auth`), decides about connections and builds the broker's settings
  (`broker`), keeps the window of recent events and the monitor's state
  (`inference`), and does the work of the `passwd` command (`passwd_cmd`). The
  files named `laws.rs` or `*_laws.rs` state what holds across functions.
- `app/` is the program around it: command line, files, network, threads.
- `tests/` runs the library on concrete values.

## What is trusted

Calls into `bcrypt` and `x509-parser`, the system clock, and the lossy decoding
of bytes to text are wrapped in small functions whose contracts are assumed;
each says in its doc comment what it assumes. The library never touches
floating-point numbers: scores and thresholds are carried as bits. It orders
scores by their bits; `app/` compares the top score with the threshold.
