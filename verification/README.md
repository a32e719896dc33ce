# opendeck_ampgd6

The rules of an OpenDeck plugin for FIFINE Ampligame D6 decks, verified with
Verus, and the plugin around them.

A deck has three rows of five buttons. The host sends pictures for them, and is
told which buttons go down and up.

## The library, `src/`

- `mappings`: the deck's shape, the known models, picture formats.
- `inputs`: input reports, held buttons, the two numberings of the buttons.
- `events`: reading a deck, and what the host is told.
- `frame`: bitmaps and rounded corners.
- `picture`: from a data URL to a button's bitmap.
- `convert`: from a bitmap to the bytes that the device takes.
- `cache`: converted pictures that are kept.
- `batch`: commands, and the batches that they are gathered in.
- `render`: one pass over the deck that draws a batch.
- `render_laws`, `content_laws`, `order_laws`: what holds of every pass.
- `worker`: gathering bursts and having them drawn.
- `enqueue`: handing a command to a deck's renderer.
- `tables`: what is known of the decks that are plugged in.
- `task`: the life of a deck from being plugged in to being unplugged.
- `error`: what can go wrong, and which errors a deck survives.

Everything that has to wait, for the device, for the host or for time, is
decided here and done elsewhere: `render`, `worker`, `enqueue`, `events` and
`task` are machines that name the next action and are told how it went.

Calls into other crates (`data-url`, `image`, `mirajazz`, `futures-lite`,
`tokio`) and one into `std` stand behind a few functions whose contracts are
trusted; each says in its comment what is trusted of it.

## The plugin, `app/`

Performs the actions: HID devices through `mirajazz`, the host through
`openaction`, tasks and time through `tokio`.
