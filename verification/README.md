# usbfs_endpoint

The endpoint logic of a full-speed USB device controller, verified with Verus.

The controller keeps one word per packet buffer in a list in memory that it shares with the
processor. This library decides which words and registers an endpoint loads and stores, and in
which order; it performs no access itself. A `Transfer` names the accesses one by one, and takes
the values of those that load.

- `src/entry.rs`: the words of the list and updates of them
- `src/kinds.rs`, `src/buffer.rs`: transfer types, statuses, errors, packet buffers
- `src/transfer.rs`: operations, the steps of a transfer, and its trace
- `src/config.rs`: what an endpoint is set up with, and its transfers
- `src/guard.rs`, `src/endpoint.rs`: the endpoint, whose buffers are behind mutexes
- `src/trace_laws.rs`, `src/endpoint_laws.rs`: what is proved of all transfers
- `app/`: runs transfers on the USB0 controller of an LPC55
