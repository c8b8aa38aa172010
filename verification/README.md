# machctrl

A hardware monitor and tuner for Linux machines: CPU, memory, disks, network,
GPUs, fans, power profiles and cleanup tasks, read from `/proc`, `/sys` and a few
system tools.

The crate is in two parts.

- `src/` is the library, verified with Verus. It holds everything that decides or
  computes: the parsers of `/proc/stat`, `/proc/cpuinfo`, `/proc/net/dev`,
  `/proc/<pid>/stat`, `dmidecode` output, the raw SMBIOS table, `df` and
  `nvidia-smi` output; grouping of logical CPUs into sockets; per-core temperature
  assignment; RAPL energy bookkeeping across counter wraparound; power profiles and
  the governors they select; fan-control decisions and PWM scaling; the cleanup
  tasks offered and how their results are reported, including byte sizes as text.
  Each public function states its result exactly in its `ensures`; the `law_*`
  proof functions state properties that relate several functions or hold for every
  input.
- `app/` is the program around it: it reads the files, runs the commands, keeps the
  state between two readings, turns counters into rates and percentages (floating
  point), prints JSON, and runs the fan-control daemon.

Modules of the library:

| module        | contents                                                        |
|---------------|-----------------------------------------------------------------|
| `text`        | trimming, splitting, number parsing and formatting, ordering    |
| `procstat`    | CPU times, memory, network counters, processes, distribution    |
| `topology`    | `/proc/cpuinfo` blocks and sockets                              |
| `snapshot`    | network transfer, package and per-core temperatures, history    |
| `power`       | RAPL domains, packages and energy deltas                        |
| `profiles`    | governors, profiles offered and in effect, applying a profile   |
| `hwmon`       | chip keys, sensor channels, fans, PWM scaling                   |
| `fancontrol`  | fan modes and the step taken for each fan                       |
| `gpu`         | DRM cards, `nvidia-smi` rows and fan commands                   |
| `dmi`         | `dmidecode -t 17` memory devices                                |
| `smbios`      | the raw SMBIOS table and its type 17 structures                 |
| `disks`       | filesystems worth showing from `df`                             |
| `sysinfo`     | board, product, BIOS and installation date                      |
| `cleaner`     | cleanup tasks, their results, tool output                       |
