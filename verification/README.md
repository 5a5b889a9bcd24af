# colony

The design tokens of the Colony programs — palettes, theme families, accents,
display strings — and the rules around them, as a verified library.

- `src/` is the library, checked by Verus: colour parsing and printing
  (`color`), the token model and its validation (`model`), the label tables
  (`emit::i18n`), keeping `generated/` in step with `tokens/` (`generate`),
  the theme catalog, resolver, accent overrides and identity tint (`theme`),
  locale lookup (`i18n`), release manifests (`manifest`), where a program
  keeps its files (`paths`), and a sorted string map (`strmap`).
- `app/` is the command-line generator (`generate`, `check`) and what needs
  floating point or iced: colour luminance and contrast, the high-contrast
  boost, text scaling, and the process-wide active theme. It reads and writes
  the files and hands the library plain values.
- `tests/` exercises the library through its public API.
