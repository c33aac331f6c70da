# relay_rank

Reading Tor network-status documents and ranking relays by how much of the
network an adversary controlling them (or watching their networks) could see.

`src/` is the verified library:

- `text`, `numbers`: splitting text the way `str::split_once`, `split`,
  `splitn` and `lines` do, and reading decimal numbers the way `str::parse`
  reads unsigned integers.
- `tor_status`: relay identities, flags, versions, addresses, bandwidth
  weights; the consensus parser (`tor_status::consensus`), the server
  descriptor parser (`tor_status::descriptor`), the names of cached files and
  the previous month's descriptor folder (`tor_status::paths`), relays joined with their descriptors, and the
  guards or exits that a relay is paired with (`tor_status::partners`).
- `network_metric`: reading AS-path inference results, grouping the observed
  autonomous systems by relay and counting them.
- `parse_exclusion_list`, `selected_ranks`: reading an exclusion list and
  choosing which ranks of a ranking are printed.
- `properties`: statements that relate several functions (hex round trip,
  symmetry of the circuit constraint and of pairing, flag lines,
  observation counts, printed ranks, versions read back).

`app/` is the command-line program: it reads the cache from disk and
computes the floating-point metrics.
