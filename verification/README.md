# Spark Garden

Spark Garden is a small daily ritual on one page: visitors plant a mood in a
shared garden, finish a tiny quest and leave a kind note for whoever comes next.

The library under `src/` is written in Verus. It holds everything the server
decides and computes, with contracts that say exactly what comes out:

- `http`: reading a request line by line, writing responses, the health check
- `server`: routing a request, adding an entry, keeping the latest entries
- `form`: URL-encoded forms and the cleaning of their fields
- `entry`, `garden`, `quest`, `page`: counts, the note and the quest of the day,
  the petals, the page and its JSON state
- `record`, `store`, `db`: the stored form of an entry, in a text file with one
  line per entry or in the rows of a database table
- `escape`, `number`, `text`, `assets`: what the others are made of

Functions named `law_...` state what holds across the library: that an entry is
read back as it was written, that memory and file stay in step, that escaped
text cannot leave its place, that keys follow time.

The program under `app/` does the rest: it listens on `SPARK_ADDR` (by default
`127.0.0.1:8080`), starts a thread per connection, and adds lines to the file
named by `SPARK_DATA` (by default `data/spark-garden.tsv`). With `--healthcheck`
it asks a running server whether it is well.
