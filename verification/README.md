# tunnelclient

The decisions behind a fleet of render clients for a light show, written in
Verus and proved against their contracts.

- `src/` is the verified library: the snapshot buffer that brackets the time
  to draw, the mesh and ramp-texture caches with their budgets, index batching
  for GPU draws, the shader parameter codes, the projector's ESC/VP21 command
  and reply rules, the bootstrapper's push check and restart backoff, the
  layout container unpacking, and the operator prompts' parsing. Calls into
  `sha2`, `zip` and std's text functions stand behind small trusted wrappers
  whose doc comments say what is believed of them.
- `tests/` runs the library on concrete values.
- `app/` is the unverified shell: process, serial-port, socket and terminal
  I/O, and the serde copies of the wire types.
