# astro_origin

Record keeping for the gacha (wish / warp) histories of Genshin Impact and
Honkai: Star Rail, verified with Verus.

- `src/` is the verified library: per-game configuration and its defaults,
  the cached authorisation key and its 24-hour validity, the game names,
  the normalisation of recognised dates and item names, the reading of
  records off a history screenshot (name colour, header detection, the rows
  to store), the planning of the paged record query, and the pull
  statistics (counts, lost 50/50s, pity, per banner).
- `app/` is the desktop side around it: configuration files, the SQLite
  database, text recognition of screenshots, the pixel geometry of the
  recognised words, and the commands that the front end calls.
- `tests/` runs the library on concrete values.
