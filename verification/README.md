# stardust-xr-wayland-service

The decisions of a Wayland compositor without a screen, whose windows become panel items that
the shells of a Stardust XR scene show. The library in `src/` holds these decisions and is
verified with [Verus](https://github.com/verus-lang/verus). The programs in `app/` put part of
it to work; see below for what they serve.

## How it works

The library does no I/O. A `Client` holds the objects of a connection, hands out event serials
and collects the events that are to be written to the socket. A `Compositor` holds the surfaces,
windows and popups of a client and collects the actions that are to be taken outside. Results of
outside work (a file's identity, a fetched key map, a buffer that the server took or refused,
the time) are arguments.

| Module | What it holds |
| --- | --- |
| `client`, `event`, `message`, `error`, `types` | connections and what goes over them |
| `scene`, `compositor`, `surface_requests` | surfaces, how they hang together, and what clients ask |
| `commit_laws`, `window_laws` | what holds of commits, of windows and of popups |
| `protocols::wl` | surfaces, buffers, keyboards, outputs, shared memory, the clipboard |
| `protocols::xdg` | windows, popups, panel items, and acceptors that take and return them |
| `protocols::dmabuf`, `protocols::mesa_drm` | buffers in memory of the graphics device |
| `socket`, `inbox` | the task of a client, and the order in which it handles what comes in |
| `socket_finder`, `text` | the search for a free display |
| `panel_item_ui`, `panel_item_provider`, `frame_dispatcher`, `plugin` | panels, acceptors, frames |
| `signal_on_drop`, `vulkan_ctx`, `presentation` | timeline points, queues, timestamps |
| `collections` | what is taken on trust of `dashmap`, `rustc-hash` and `rand` |

`protocols::dmabuf::fourcc` takes on trust what `drm-fourcc` says of a code. Nothing else is
trusted.

## Programs

    export WAYLAND_DISPLAY=$(service wayland)
    export DISPLAY=$(service x11)
    service $WAYLAND_DISPLAY &

With `wayland` or `x11` as the first argument the program prints the smallest display that is
free, with `full-path` as the second one the path of its socket. Any other first argument is the
path of the socket to listen on; a socket that is called `wayland` or `x11` is given as `./wayland`
or `./x11`.

The service serves surfaces, regions, the output, frame callbacks and the clipboard. It offers no
globals for windows, seats or buffers yet: their objects, which hand requests to `protocols::xdg`,
`protocols::wl`, `protocols::dmabuf` and `protocols::mesa_drm`, and the shell that takes the
actions of a `Compositor`, are left to a program that links a panel shell and a graphics device.
What such a program has to ask of the system beside the library is in `app/panel.rs`: the size of
a panel in metres, the files of a buffer's planes and the queues of the device.
