# libgreen

Measures a region of code: wall time, RAPL energy, CPU cycles, cache and
branch misses, and C-state residency, through Linux perf events. A
measurement is started with a comma-separated list of metric names
(`rapl`, `cycles`, `misses`, `cstates`; wall time is always measured) and,
when it is stopped, one row is appended to a CSV file (`LG_OUTPUT`, or
`measurements.csv`), with a header row when the file is new.

## Layout

- `src/` — the library, verified with Verus:
  - `columns.rs`: the columns of the measurement file and their order;
  - `config.rs`: the metric list and the bundles it asks for;
  - `readings.rs`: a set of measurements (a map from column to value);
  - `events.rs`: the counted events, and selecting the counters that opened;
  - `bundles.rs`, `time_bundle.rs`, `rapl.rs`, `cycles.rs`, `misses.rs`,
    `cstates.rs`: the measurement bundles;
  - `measurements.rs`: starting and stopping a measurement, and the CSV row;
  - `perf.rs`, `host.rs`: the calls into `perf_event`, the clock, `affinity`,
    `num_cpus` and `chrono`, each behind a small trusted wrapper. Each
    `perf_event` builder, counter and group carries a ghost model: the options
    it was built with (event, PMU, CPU, processes, kernel and hypervisor) and
    the enable, disable and reset operations the kernel accepted on it. The
    bundles' contracts are stated over that model: which counters a bundle
    opens, and that starting a measurement leaves every counter reset and
    then enabled.
- `app/lib.rs` — the C and JNI entry points, the environment, error
  messages, the scaling of RAPL counts to joules (floating point) and the
  writing of the CSV file.
- `tests/` — tests of the library.
