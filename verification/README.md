# officium_rs

The rubric core of the Divinum Officium calendar, in Verus: the
liturgical calendar arithmetic (Easter, Advent, week labels, the
Sancti kalendar's leap-year shift, day counts), the rubric and office
value types, the year-aware kalendar layers, the Breviary corpus and
the text helpers of the hour renderer, each with a contract proved by
Verus.

## Layout

- `src/date.rs` — calendar arithmetic, with its laws (Easter is a
  Sunday between March 22 and April 25 and is `Pasc0`; Advent's first
  Sunday falls 22 to 28 days before Christmas; day counts and days of
  the year convert both ways).
- `src/core_types.rs` — dates, rubrics, file keys and the other value
  types.
- `src/kalendaria_layers.rs` — the seven kalendar layers and the
  resolved kalendar table.
- `src/horas.rs` — the Breviary corpus, `[Rule]` parsing, slot names,
  the saint's name, Office spelling and `$macro` expansion.
- `src/office_hour.rs` — the walk over an Ordinarium hour template:
  rendered lines, `&macro`/`$macro` expansion, whole-body `@path`
  redirects, and the splicing of the day's proper from its commune
  chain into each section slot (with the Oratio rules of the
  Epiphany week, the plain Tempora feria and the Ember Vespers).
- `src/ranks.rs` — rank lines of `[Rank]` bodies, ranks in
  thousandths.
- `src/office_day.rs` — the office of a day key: its rank through
  inheritance, its commune chain, the ferial preces, first-Vespers
  concurrence, and the rendered hour of a day.
- `src/breviary/` — the hour names and headings, text postprocessing
  (the psalm-verse asterisk, `depunct`, the Paschal alleluia) and the
  walker's value types.
- `src/embed.rs` — brotli decompression of the embedded blobs and the
  layout of the combined corpus blob.
- `src/harness.rs` — helpers of the regression sweeps.
- `src/text.rs` — character-level helpers shared by the modules.
- `app/lib.rs` — the serde shapes of the data files and their loaders.
- `app/ranks.rs` — the kalendar projection with floating-point rank
  numbers.
