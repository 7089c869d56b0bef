# ktop

A terminal system monitor: CPU, memory, disk, network and the busiest
processes on one dashboard, sortable by keyboard or mouse.

The library (`src/`) holds the logic, each function with a contract proved
by Verus:

- `stats` — turns one raw sample of the machine into the dashboard figures
  (memory and disk percentages, the disk and network interface shown, the ten
  busiest processes);
- `procs`, `sorting` — process rows, their six orders, and a stable sort
  proved to give the unique stable arrangement;
- `dirs` — reading `du -s -m` reports and ranking directory sizes;
- `input` — keys and mouse: sort order, selected row, refresh and quit;
- `layout` — the dashboard grid (through tui's layout solver) and the sort
  buttons a click is tested against;
- `gauge`, `text`, `refresh` — bar fills and colours, clipped names and
  labels, the clock, and when the main loop refreshes.

`app/main.rs` is the program around it: it reads the machine with sysinfo,
runs `du`, draws with tui and reads input with crossterm.
