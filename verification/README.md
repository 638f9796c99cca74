# gloss_renderer (verified core)

The verified part of the Gloss renderer: the protocol by which a scene is
synchronised over the network, the index topology of the built-in meshes,
and the plain components and configuration enums.

- `src/` is checked by Verus. `messages`, `transport`, `sender` and `receiver`
  hold the network protocol (message values, the length-prefixed framing,
  sequence numbering and frame batching, and what each received message asks
  of the local scene); `sender_laws` and `receiver_laws` prove properties that
  span several operations. `geometry` holds the cube and grid topology and the
  gathering of edge-end vertices. `scene_names` keeps the names of a scene's
  entities, and `camera_input` the drag mode and touches of the camera
  controller. `components`, `config`, `window`, `render`, `selector` and
  `serializable` hold the small types.
- `app/` is ordinary Rust around it: serde forms and bincode encoding of the
  messages, the TCP transports, the sender and receiver that perform the I/O
  the library decides on, and the floating-point parts of mesh building.
- `tests/` exercise the library on concrete values.
