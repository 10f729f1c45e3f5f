# netman

A network manager: it configures network cards (IPv4 and IPv6, static or by DHCP, and
their DNS servers), switches links, keeps the configuration across restarts and tells
subscribers of changes. An interactive client and a service behind a Unix socket come
with it.

## Layout

- `src/` is the library, verified with Verus. It decides and performs no I/O: where
  outside work is needed it says which, and takes in what came of it.
  - `network/actor.rs` is the manager: what it knows of the cards, and the jobs it does.
    `poll` gives the next piece of outside work of a job, `complete` takes in its outcome.
  - `network/runs.rs` and `network/runs/` hold the laws of jobs: what is true of every run,
    whatever fails on the way.
  - `network/cards.rs` holds the cards by name, in order.
  - `network/netlink.rs` and `network/monitor.rs` read what the kernel says of links and
    make the requests for addresses and routes.
  - `network/dhcp/` says when clients run and what their leases hold.
  - `network/resolv.rs` rewrites the resolver's configuration, `network/persist.rs` says
    what of a card is kept on disk, and where.
  - `ipc.rs` is the request protocol, `nmctl.rs` the command language of the client.
  - `addr.rs`, `number.rs` and `text.rs` are addresses, numbers and text.
- `app/` is the program around it: sockets, netlink, DHCP exchanges, files, JSON.
- `tests/` are the tests of the library.

## Use

```
netman            # the interactive client (needs root)
netman serve      # the service on /tmp/netman.sock
```

```
netman> list
netman> info eth0
netman> link eth0 up
netman> ipv4 eth0 --dhcp
netman> ipv4 eth0 --ip 192.168.1.10 --netmask 255.255.255.0 --gw 192.168.1.1
netman> ipv6 eth0 --ip fd00::10 --prefix 64
netman> help
netman> quit
```

The configuration of a card is kept as JSON in `/root/<iface>.json` and restored at the
next start.

## What is not proved

Three functions are taken at their word, each with its contract beside it:
`String::push` of the standard library, `LinkFlags::contains` of `netlink-packet-route`
and the option code of DNS servers of `mozim`.
