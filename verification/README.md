# ttml_db

A database of song lyrics in a single file. Songs come as TTML documents from a remote collection;
the database keeps their metadata, their lyrics and the documents, can be searched, and is kept in
step with the collection.

`src/` is the library, verified with Verus:

- `model`: the types, and how an entry is made of a parsed document;
- `text`, `matching`, `characters`: lines, joining, and matching without regard to the case of ASCII
  letters;
- `archive`, `block`: the archived form of entries, and the blocks of the file;
- `reader`, `writer`: reading, searching and writing a database;
- `ttml`, `limits`: parsing documents, and which of them the parser can take on;
- `remote`, `sync`: what the collection sends, and the decisions of a synchronisation.

`app/` does the input and output around it: files, HTTP, the ZIP archive and JSON. `tests/` runs the
library.

## The file

A database file is a sequence of blocks. A block is the four bytes `ttml`, the length of its payload
as four bytes in little-endian order, and the payload: an `rkyv` archive of rows of nine texts.
Entries are added by putting a block behind the file. Reading ends at the first block that is not
complete or not readable: what stands before a block that was written in part stays readable, what
is put behind it does not.

## A synchronisation

`LyricSyncer::sync` takes an event and gives the next action. Its caller performs the action and
reports what came of it as the next event, until the action is `Finish` or `Fail`.
