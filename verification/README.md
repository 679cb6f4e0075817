# ion_monitor

A terminal system monitor. `src/` is the verified core; `app/` is the
program around it (terminal, event loop, system probes, Bluetooth and WiFi
scanning, widgets and effects).

- `ring`: fixed-capacity sample buffer that keeps the latest samples.
- `history`: CPU and RAM percentage series for the sparklines.
- `text`: decimal text, byte sizes, signal percentages.
- `snapshot`: the text and counters one refresh produces (WiFi, GPU, disks, network).
- `top`: the process table's top entries by CPU rank.
- `join`, `bluetooth`: joined text, the Bluetooth panel and the Bluetooth watcher's steps.
- `cache`: the cached panel texts.
- `nav`: key handling and table selection.
- `pulse`: when the periodic screen effects fire and when WiFi is scanned.
- `layout`: division of the screen into panels.
