# oneclient_app

The decision logic of the OneClient launcher's desktop views, written in
Verus with its contracts proved: which packages a cluster has installed,
how the package manager filters and sorts its rows, the create-instance
wizard, the browser's search filters and pagers, the versions page, the
analytics series, the settings patches and the smaller rules of the other
pages. The views themselves, which draw these values, are not part of it.

- `src/`: the library. Each module holds one page or concern; `domain.rs`
  holds the shared data model and `text.rs` the character-level helpers.
- `tests/`: ordinary Rust tests of the library.

Functions that depend on the current time (whether a sign-in has expired,
the daily series up to today) take it as an argument, read by the caller.

Maps and sets keyed by strings (installed projects, package names, picked
screenshots, seen package ids) are held as vectors with a ghost model and
an invariant that no key repeats: Verus's specifications of the standard
hash maps state little for string keys.
