# Rust Viewer Pro — verified core

A fast, cross-platform image viewer whose core decisions carry contracts that
Verus checks.

* `src/` is the verified library:
  * `viewer` — the playlist position and the cache of decoded images: the
    current image and both neighbours are requested ahead of time, everything
    else is dropped (late results included), and keyboard intents move
    through the playlist.
  * `image_loader` — which paths are images (by extension, ignoring case),
    where a path sits in a playlist, which folder to walk, and how a walked
    folder becomes a sorted playlist that keeps every image found. Paths are
    modelled as texts that Unix and Windows parse alike.
  * `path_order` — the playlist order, that of `std::path::Path`, named for
    canonical path texts.
  * `decode`, `frame` — decoding bytes with the `image` crate under strict
    size and allocation limits, and fitting the result under a size cap.
  * `update` — which release to offer and how the self-update status moves.
  * `input` — the keys the viewer reacts to and the intents they give.
* `app/` is the eframe program around it: windowing, painting, the floating
  point view transform, the decoder thread, the disk and the network.
* `tests/` exercises the library on concrete values.
