# Neutron

Neutron manages WireGuard profiles by way of NetworkManager: it connects and
switches profiles, keeps a kill switch and an always-on firewall lockdown, splits
the tunnel by address, forwards a port and hands it to qBittorrent.

The library in `src/` holds the decisions and is verified with Verus. It runs no
program and opens no file or socket of its own: the output of programs, the replies
of services and the addresses of names come in as values, and what the program does
in turn is handed in as functions. Of the machine it only asks which directories the
user has.

A function that may be called more than once is called by way of a recorder, and the
contract fixes what the record gets: which calls are made, with what, how often and
in which order. A function that is called at most once is handed over for good.
Where something has to come before it, the contract asks that it can be called only
after that: one that saves a setting, only once the setting was applied.

Paths are held as the bytes by which the system knows them, since they need not be
text.

| Module        | What it states                                                            |
|---------------|---------------------------------------------------------------------------|
| `text`, `ip`, `paths`, `order`, `collections` | texts, addresses, paths, sorting, sets and maps |
| `config`      | the settings and where they are kept                                      |
| `nm`          | profiles, tunnels, routes, diagnostics and the client of NetworkManager   |
| `firewall`    | the rules of the lockdown, the script that installs them, and the helper  |
| `portforward` | NAT-PMP and the Web UI of qBittorrent                                     |
| `record`      | records of the calls that are made outside the library                    |
| `app`         | what the commands do                                                      |
| `install`, `process` | how the program was installed, and how commands fail               |
| `gui`         | the window, the tray and the entry in the menu of the desktop             |

What holds of the library as a whole is stated in proof functions whose names start
with `law_`. Among them:

- the routes that leave out blocks cover every other address and none of those, and
  no fewer routes do;
- no rule of the lockdown is taken away before one that drops everything, or all the
  new rules, are in place;
- removing the lockdown takes out its own rules and no others;
- saving a policy changes that policy and no other setting;
- an address, a block, a request and a reply are read back as they were written;
- a quoted text comes out of the shell, and out of curl, as it went in.

`app/` is the program around the library: arguments, files, processes, sockets and
the window. The window needs GTK 4 and libadwaita.
