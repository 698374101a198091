# circuit_rooms

The rules of a multiplayer circuit table. Players draw schematics on a shared sheet; a
solver runs the circuit; everybody sees and hears the same thing. This crate holds what a
room is and what may happen to it, verified with Verus:

- the document: edits, flips and turns, the machine's locked parts, which commands of a
  tick a later one makes irrelevant;
- the instruments: panels, label boxes, layers, net labels, probes, oscilloscopes;
- what drives a room from outside, and what happens when it stops;
- one tick: what a command asks of the solver, what it does once the solver has answered,
  and what has to happen outside the room;
- one session: what each message comes to, and when a session is over;
- the server: codes, names, files, which room is the default, who is listed first;
- the circuits that rooms are made from.

Numbers of the physical world are held as the bit patterns of binary64. The library
compares them, bounds them, judges whether two are far enough apart, and carries them;
whoever calls it does the other arithmetic and hands the results in. In the same way the solver, the disk, the network and the clock are asked
by the caller, and what they said is an argument.

`src/` is the library, `tests/` its tests. `app/` is the server round it: websockets, HTTP,
files, and the task that steps a room's solver. It needs the workspace's solver, machine and
damage crates (`sim_core`, `machine`, `damage`).
