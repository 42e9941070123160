# liquidMetal

A blob of liquid metal that floats on the desktop. Grab it, fling it, and it coasts and
wobbles; throw it off an edge that leads to another machine, and it turns up on that
machine's screen.

The crate is in two parts.

- `src/` is the library: everything that is decided. The wire format, the node that throws
  and catches, the choice of the peer behind each edge, doors and walls, the input region,
  the overlays' state on each platform, the command line. It is written in Verus, each
  function with a contract, and the properties that span several functions stand as public
  proof functions whose names begin with `law_`.
- `app/` is the program around it: sockets and threads, the window and the frame loop, the
  shader, and the floating-point arithmetic of the springs.

Numbers that the simulation computes come into the library as `Single`: the bit pattern of
an IEEE binary32 number, with its order and its value stated over integers.

| Module | What it holds |
| --- | --- |
| `single`, `bytes`, `text` | Numbers, byte order, text |
| `wire`, `wire_laws` | The protocol: frames, encoding, decoding |
| `address`, `peers`, `peers_laws` | Who is there, and behind which edge |
| `net`, `net_laws`, `receipt`, `stream_laws` | A node: throwing, catching, discovery, receipts |
| `naming`, `options` | Node ids, host names, `--peer`, the command line |
| `physics`, `blob`, `blob_laws` | The pointer's track; doors, walls, holes, being held |
| `region`, `groups`, `frame` | The input region, merging, pixels |
| `desk`, `overlay`, `overlay_x11`, `overlay_mac`, `overlay_win` | The window on the desktop |
| `shell`, `shell_laws`, `echo`, `selftest` | The app, the headless peer, the scripted run |
