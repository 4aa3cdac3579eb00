# wechat-statistics

Statistics over one's own chat history, read from decrypted WeChat 4.x databases: how much is written
and when, a single conversation in depth, and the story of two people as text, as a page and as slides.
The databases are opened for reading only, and the pages carry their own styles and scripts.

The computing part is a Verus library. The functions in `src/` state what they return, and Verus proves
it, but for those that call into other crates and the standard library: what they state is believed (see
"What is taken on trust"), and of loading the dictionary (`segment`) nothing is stated.

## Layout

- `src/` is the library.
  - `model`, `loader`, `schema`, `content`: contacts, conversations and messages; merging the databases of
    a conversation, the queries that read them, and decoding stored texts.
  - `timeline`, `calendar`: local days, clock readings and replies.
  - `dig`, `couple`, `curios`, `trend`, `lexical`, `stats`: what is counted; `story` puts it together.
  - `probe`: grouping tables that are built alike and guessing which columns hold times.
  - `fmt`, `report`, `render`: numbers, lines of text and pages.
  - `text`, `unicode`, `ordered`, `seqs`, `segment`, `double`: what the others build on. `double` is double
    precision in integers, for what depends on how a share is rounded: bars, sparks, shades, points.
- `app/` is the program around it: arguments, files, databases, JSON, and the numbers with a fraction that
  are shown (shares in percent, coordinates).
- `tests/` runs the library.

## Pages that stand alone

`render::whole` proves of a page and of a deck of slides that they hold no two opening braces in a row,
hence no mark of a template, and no two slashes in a row, hence no address of another host, where the
parts that are put into them hold none. A link in a message, which has such a pair, is put in as escaped
text.

## Time zones

Which local day a message falls on depends on the machine. Functions named `.._at` take the readings of
the clock as an argument and say exactly what comes out; their namesakes read the clock and say that
what comes out belongs to some reading that the clock may have given.

## What is taken on trust

The functions of other crates and of the standard library that the library calls are declared beside
their callers, each with what it is taken to do: chrono (`calendar`), zstd and UTF-8 decoding
(`content`, `probe`), jieba-rs (`segment`), two Unicode tables (`unicode`), and adding a character to a
text (`text`).

## Commands

```
wechat-statistics schema   --db <file or directory> [--json out.json] [--no-count] [--no-samples]
wechat-statistics selftest
wechat-statistics inspect  --data <directory> [--top 10]
wechat-statistics stats    --data <directory> [--top 10] [--json out.json]
wechat-statistics dig      --data <directory> (--with <part of a name> | --rank <n> | --user <name>)
wechat-statistics couple   --data <directory> (--with .. | --rank .. | --user ..) [--words 12]
                           [--html report.html] [--slides slides.html] [--json out.json]
```

The directory is named after one's own account and holds `contact.db`, `session.db` and the message
databases.
