# coxagent_presentation

The decisions behind a multi-project hub's HTTP server, verified with Verus.

The server lets people and agents work on several projects at once: an inbox of what waits on a
person, pull requests and previews, spaces with members and budgets, invitations, meetings, a wiki,
public share links, a live river of activity, and the loops that keep the host clean. `src/` holds
what each of these decides: who may do what, what is refused with which answer, which items are
shown and in which order, what changes in a stored document and what stays. The contracts state the
results exactly, but where chance decides (the digits of a minted token) or an order is left open
(people who did equally much); the laws that span several functions stand beside them as public
proof functions.

- `src/text.rs`, `src/lists.rs`, `src/order.rs`, `src/json.rs`, `src/clock.rs`: text, lists,
  sorting, JSON and instants.
- `src/guards.rs`, `src/security.rs`, `src/reply.rs`: callers, headers, refusals.
- the other modules of `src/`: one surface of the server each.
- `tests/`: the library on concrete values.
- `app/`: the server around the library, with its ports, sockets, processes and files.
