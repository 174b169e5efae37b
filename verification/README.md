# tallow_rust

Blocks IP addresses that misbehave according to the systemd journal.

- `src/` is the verified library:
  - `text` — character-level string helpers (trailing-slash trimming, prefix
    stripping, decimal notation) proved against direct specifications;
  - `patterns` — pattern groups and the search for the first pattern whose
    first capture group yields an address (regular expressions come from the
    `regex` crate behind one trusted wrapper);
  - `tracking` — the table of tracked addresses, scoring and blocking
    decisions, whitelisting and expiry, with the laws they obey;
  - `firewall` — the ipset/iptables/firewalld commands, and firewall setup as
    a step function from the last command's result to the next action;
  - `config` — the settings.
- `app/` is the daemon: journal access, running commands, signals, logging,
  reading JSON pattern files.

Scores are counted in thousandths of a point; times are nanoseconds since
the Unix epoch.
