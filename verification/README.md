# fried_world

A personal web site: markdown pages in several languages, sorted into
categories, and a small pastebin.

- `src/` is the verified library:
  - `cacher.rs`: a cache whose values last at least a given duration, with
    the cleanup of stale values, and the laws that relate lookups, stores and
    cleanups;
  - `page.rs`: the header of a markdown page (`!date=`, `!lang=`, `#` title),
    its rendering to HTML, the listing of page files and the order of a
    category's index, and the data that the templates get;
  - `lang.rs`: the localized texts of each language, the fallback on the
    default language, and the choice of a visitor's language;
  - `paste.rs`, `date.rs`, `time.rs`, `text.rs`: the pastebin's page data,
    calendar dates, time spans and the clock, and character-level facts.
- `app/` is the Rocket application around it: routes, templates, files and
  configuration.
- `tests/` runs the library on concrete values.
