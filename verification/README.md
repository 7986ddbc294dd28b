# ssl_sim

The logic around a RoboCup Small Size League simulator, written and proved in Verus.

- `src/net`: requests on the control, team and legacy ports, their answers, and the
  packets that the simulator publishes.
- `src/viewer`: what a viewer shows, and what its pointer does.
- `src/logtool`: reading recorded games, and what is counted, matched and selected
  in them.
- `src/double.rs`: floating-point numbers as bit patterns. They are compared and
  negated here; arithmetic on them is left to the caller.
- `tests`: the library from outside.
- `app`: sockets, windows, files and floating-point arithmetic around the library.

A contract speaks of the numbers it is given. Where a distance, an age or a speed
decides something, the caller computes it and the library decides.
