# Network Scanner

A desktop application that looks at the local network: it finds hosts with the address
resolution protocol, probes TCP ports, shows the results as they come in, and exports them as
comma-separated values.

The library in `src/` holds everything that the application decides and computes. It is written
in Verus: every function states what it does, and the statements are proved. The program in
`app/` opens capture channels, sockets, files and the window around it.

| Module | What it is about |
| --- | --- |
| `text`, `address`, `mac`, `ordered` | Characters, numbers, addresses, ascending lists |
| `network`, `link`, `ports` | The subnet, the interface and the ports that the user enters |
| `arp`, `discover` | Packets of address resolution, and the search for hosts |
| `scan`, `event` | The probes of a scan, its progress and its reports |
| `vendor` | The registry of hardware addresses |
| `capture`, `shell` | Access to packet capture, and the command that grants it |
| `device`, `table`, `export` | Devices, the table of results, the exported file |
| `session`, `panel` | What the user entered and sees, and the texts of the window |

Facts that relate several functions are the proof functions whose names begin with `law_`.
Calls into `ipnetwork`, `pnet`, `csv` and the parts of `std` without a specification stand in
small functions marked `external_body`; what they are relied on for is written above each.

The registry of hardware addresses, `data/vendors.tsv`, is built into the program; it has to be
there when the program is built.

With `--check-capture` the program checks packet capture on the first interface and exits with
0 where it is ready, 2 where access is denied, and 1 otherwise.
