# love_api

The decision logic of a small LÖVE runtime for handheld devices, written in Verus: the
rules that patch game scripts as they are served from the game archive, the occlusion and
layer analysis that lets the renderer skip hidden card draws, the raster worker's batching
of queued draws, the caches that bound memory on the device, Vorbis decoding into memory or
into the PCM cache (through lewton), the PCM cache file format and its index, key naming,
and the bookkeeping of the audio mixer.

Layout:

- `src/` is the verified library. Each module states its data with spec functions and
  views, gives every public function a contract over them, and proves the laws that span
  several calls as public proof functions named `law_*`.
- `tests/` runs the library on concrete inputs; `patch_scripts.rs` runs patched scripts in
  LuaJIT.
- `app/` is the unverified runtime around the library: files and archives, audio output,
  the mixer's floating-point sample arithmetic, terminal input and reports.
