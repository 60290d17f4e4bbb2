# lib

Verified logic of a terminal's view, written in Verus.

- `src/links.rs` finds the link under a column of a terminal line and says
  what it opens (URLs, `www.` hosts, domains, IPv4 hosts, file paths).
- `src/palette.rs` holds the command palette: its entries, its search, the
  order of its theme list and its state.
- `src/view.rs`, `src/quit.rs` and `src/tab_strip.rs` hold the decisions of
  the view: key presses in the palette, quitting and closing the window, the
  title bar and the tab strip. Each returns what the caller is to perform.
- `src/text.rs`, `src/chars.rs` and `src/order.rs` are the character and
  sequence helpers these rest on.
- `app/` holds what computes in floating point (scrolling, hit tests).
