# owa-calendar

A calendar for the desktop. It logs in to Outlook Web Access, reads the user's default calendar and
the number of unread messages, shows the coming weeks and notifies the user ahead of each event and
when it starts.

## Layout

- `src/` is the library: everything that the calendar decides or computes, written in Verus with
  contracts that are proved. It performs no input or output.
- `tests/` runs the library on concrete values.
- `app/` is the program: the window, the settings file, the network, the clock and the desktop's
  notifications. It drives the library's state machines (`login::Login`, `fetch::Fetch`): each says
  what to do next, the program does it and reports what came of it.

Calls into other crates that only compute (`base64`, `chrono`, `ntlmclient`, `reqwest`'s status
texts, `serde_json`) are made in `src/` by small functions marked `external_body`. Verus believes
their contracts without proof; the comment above each says what is believed.

## Running the program

The window needs the `desktop` feature of `dioxus` and, in the current directory, `assets/` with
`favicon.ico` and `main.css`.

## Settings

The settings file is `owa-calendar/config.toml` in the user's configuration directory. A first start
creates it. Variables of the environment that start with `OWA_` come before it.
