# matea-switcher

A keyboard layout switcher for people who type in Russian and English. Whoever types `ghbdtn` with
the English layout gets `привет`: at the end of each word the daemon decides whether the word was
typed in the wrong layout, and if so erases it, switches the layout of the desktop and sends the
same keys again.

## Layout

- `src/` is the library. Its functions have contracts that Verus proves.
  - `mapper`: the glyphs of QWERTY and ЙЦУКЕН on the same keys
  - `context`: the word in progress and the words before it
  - `classifier`: keep, flip or uncertain
  - `dictionaries`: the Russian dictionary in UTF-8
  - `config`: the settings and the hotkeys in them
  - `platform`: the keyboards, the focus, the virtual keyboard, and the session that ties all
    together
  - `text`, `unicode`: texts and characters
- `tests/` runs the library.
- `app/` is the daemon: files, devices, D-Bus, the spell checker and the keymap. It asks the
  library what to do and does it.

The functions named `law_..` state what holds across functions: that flipping there and back gives
the text again, that nothing is rewritten in a password field or while rewriting is switched off,
that a rewritten word is sent with exactly the keys it was typed with, and more.

## What is taken on trust

The proofs rest on what is stated of a few functions of the standard library (`char` and `str`
case mappings and character classes, `String::push` and `String::pop`) in `unicode` and `text`,
and of `encoding_rs::KOI8_R` in `dictionaries`.

## Running

The daemon needs the libraries hunspell and libxkbcommon, the dictionaries `en_US` and `ru_RU` in
`/usr/share/hunspell`, and read and write access to the input devices (the group `input`). The
settings are in `~/.config/matea-switcher/config.toml`; `Ctrl+Shift+M` switches rewriting off and
on.
