# dbdqueue

`dbdq` shows Dead by Daylight matchmaking queue times per server region in a
terminal dashboard, measures the ping to each region, suggests the best region
per role, and can lock matchmaking to chosen regions through the firewall.

The library (`src/`) holds the dashboard's logic, with contracts checked by
Verus:

- `api`: the region tables, reading and writing queue durations, event
  countdowns, region name resolution, and turning the queue site's report
  into table rows.
- `app`: the dashboard state and how keys and background results change it.
- `best`: the "Best Pick" panel.
- `order`: the stable sort used by the table and the lock list.
- `ui`: the text and colour of every part of the screen, and the screen plan.
- `firewall`: what a region lock blocks, and the script that applies it.
- `config`, `cache`, `i18n`, `ping`, `sets`, `text`: settings, the ping
  cache, translations, ping values, string sets and string helpers.
- `properties`: properties that span several operations.

The program (`app/`) reads and writes files, talks to the network, measures
pings, draws with ratatui and runs the event loop.
