# tiny-dfr

The decision core of a Touch Bar daemon, written in Verus, and the daemon
around it.

The bar has two layers of buttons, one of them with a strip of workspaces on
its left. Overlays open over the controls, sliders follow fingers, and a
companion process tells the daemon about workspaces, volume, sessions and the
current track over a socket. `src/` decides what the bar shows, what every
touch means and what the companion may say. `app/` reads devices, talks to
sockets, computes with pixels and draws.

## The library

| Files | What they hold |
| --- | --- |
| `scalar`, `moment`, `text` | doubles as bit patterns with their order, points in time, text |
| `helper_proto`, `helper_link`, `helper_laws` | messages, bounds, framing, sessions and the link |
| `config`, `button`, `button_set`, `layer_config` | configuration and what it builds |
| `layout`, `layer_hit` | regions, spans and hits |
| `layer`, `layer_laws` | overlays and sliders of a layer |
| `strip`, `layer_strip`, `strip_laws` | live workspaces |
| `touches`, `throttle`, `bar`, `bar_laws`, `key_laws` | the bar as a state machine |
| `run_laws` | what holds of whole runs of events |
| `battery`, `sliders`, `paths`, `crash` | what devices and files amount to |
| `critters`, `now_playing` | the free middle of the bar |

Every type has a mathematical view, and every event of the bar is a function
on that view: from a `BarModel` to a `Turn`, the bar after the event and what
it asks of the world. The executable methods are proved to compute exactly
these functions. The files that end in `_laws`, and some others, state what
follows: no key stays down without a finger, a bar that nobody touches sends
nothing, hidden buttons are never held, strips show what was applied last, slider
positions keep their distance and the last one lands.

Numbers that come from pixels are doubles. The library compares and clamps
them by their bits; adding and dividing them is left to the program.

## What is taken on trust

`String::push` and `String::from_utf8_lossy` of the standard library, the
extension, parent and equality of its paths, and of chrono the parser of time
formats and the list of locales. Each is wrapped in one place, with a comment
that says what is claimed of it.
