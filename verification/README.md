# kobject-uevent

A parser for the events that the Linux kernel broadcasts about its kobjects
(`NETLINK_KOBJECT_UEVENT`), and for the same information in sysfs. It is written in Verus: the
contracts state what the functions return and when each error comes, and Verus proves them.

- `src/uevent.rs`: `UEvent`, and how it is read from a netlink packet and from a sysfs directory
- `src/fields.rs`: the `key=value` fields of an event
- `src/action.rs`, `src/error.rs`: what happened, and what can be wrong
- `src/text.rs`: splitting text, lines and numbers
- `src/path.rs`: what paths mean
- `src/laws.rs`: what holds of the library as a whole
- `src/outside.rs`: what is believed, without proof, of `compact_str` and of `std`
- `app/`: reading sysfs and the netlink socket, and the messages of errors
- `tests/`: tests
