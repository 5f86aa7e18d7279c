# svsm_vmm

The decisions of a secure VM service monitor about the guest that it runs,
verified with Verus:

- `guest_run` orders the steps of entering a guest and of taking control back.
- `execloop` decides what is logged when a guest stops, finds the frequency of
  the time stamp counter, and takes the guest's requests.
- `paging` and `guest_memory` walk a guest's page tables and read its memory.
- `guest_symbols` finds the version banner of a Linux guest, and from it the
  guest's table of TCP connections.
- `tcp_telemetry` queues observed TCP connections and frames them for the host.
- `memory_laws`, `symbol_laws`, `run_laws` and `telemetry_laws` state and prove
  what holds across functions.

The library holds no global state and touches no hardware. Where it needs the
machine it takes a closure, or says what is to be done and is told how it went.
The `requires` of a function that takes a closure names the calls that it makes,
and when, so that it makes no others. `app/` carries out on a `Platform` what the
library asks for.
