# ui

The verified core of a scanlation editor's user interface, written in Verus.

`src/` holds the logic with its contracts and laws:

- `decode`: per-page decode tiers and the settled-viewport decode scheduler
  (debounce generations, which full-resolution decodes to start and in what
  order, which to evict).
- `cache`: FNV-1a keys of the text-fit caches and the bounded FIFO cache.
- `circle`: cutting bubble text into the tokens laid out on round lines,
  and packing the tokens greedily onto the lines.
- `fallback`: CJK detection and the OS fallback font families.
- `style`: CSS font weights, nearest-face matching, CJK-aware face choice.
- `manage_models`: model-name search, the per-provider model filter and
  counts, and showing or hiding models in the hidden-models store.
- `onboarding`: API-key masking and connection status lines, the split of
  translation providers into connected, recommended and available, the
  model download action and the setup wizard's navigation.
- `mode`: the manual inpaint / OCR mode banner.
- `scale`, `panel`, `new_project`, `interaction`: font-size parsing and
  clamping, file names, the checkerboard image, labels and pointer
  vocabulary.
- `chars`: white space, trimming and string building over `Seq<char>`.

`app/` is the iced side: decoding image files, running the scheduler's timers
and decodes as iced tasks, measuring text with cosmic-text, the font-size
searches of fitted and round bubbles with their per-thread caches, and
conversions to iced types.
