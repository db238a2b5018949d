# clipboard

Clipboard logic for a Wayland client and for a browser, verified with Verus.

`src/` is the verified library:

- `text`: UTF-8 decoding, line endings, decimal numbers, quoting
- `item`: typed items (text, images, external paths), raw items, image formats
- `convert`: typed items to raw payloads and back
- `offer`: the types that another program offers, and what is made of its payloads
- `reader`: fetching payloads, with a record of what was asked for
- `wayland`: the regular clipboard and the primary selection, with what was read from them
- `transfer`: bytes on their way to a reader that takes them a piece at a time
- `web`: what to start in a browser, and what to make of its replies
- `web_items`: reading every payload of a browser clipboard, one request at a time

Functions named `law_...` state and prove what holds of the library as a whole.

`app/` is ordinary Rust around the library: pipes, the Wayland connection, the event loop,
promises and JavaScript values.
