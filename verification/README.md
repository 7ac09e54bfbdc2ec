# rpm_version

Verified handling of RPM versions: EVRs (epoch, version, release) and
NEVRAs (name, epoch, version, release, architecture), the RPM order of
versions, dependency requirements, and `EvrSortKey`, an encoding of an EVR
as bytes whose plain byte order (memcmp, `Ord for [u8]`) is the RPM order.

Layout of `src/`:

- `ascii.rs` — byte classes (digits, letters, separators) and segment runs.
- `lexical.rs` — byte-by-byte order of byte sequences.
- `version_order.rs` — the RPM order of version strings, as a specification.
- `evr.rs` — splitting `epoch:version-release`, reading the epoch number.
- `sortkey.rs` — `version_sortkey` and `EvrSortKey`.
- `compare.rs` — `compare_versions`, `compare_evr_values`, `evr_compare`.
- `nevra.rs` — splitting and comparing NEVRA strings.
- `package.rs` — the `Evr` and `Nevra` types.
- `operator.rs` — `ReqOperator`, its names and what it means.
- `requirement.rs` — `Requirement` and when a package satisfies it.
- `sort.rs` — `evr_sort` and `nevra_sort`.
- `laws.rs` — the byte order of keys is the RPM order of what they encode.
- `key_laws.rs` — how a key is built from its pieces.
- `total_order.rs` — the RPM order of versions, EVRs and NEVRAs is a total
  order.

`app/` holds the Python bindings (pyo3).
