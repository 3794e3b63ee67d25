# gallery_sorter

Sorts a folder of photos and videos into a `Year/M. Mon/Nth` tree by each
file's capture date (EXIF, ISO-BMFF `moov` boxes, `ffprobe` tags, or the
file-system times), copying, never moving.

- `src/` is the library, written and proved with Verus: extension rules,
  the tally of the directory walk, the EXIF / MP4 / ffprobe date rules and
  the ISO-BMFF box parsing, date keys and folder names, grouping by day,
  collision-free naming and deduplication, the copy tally, and the figures
  and layout of the progress display and the final report.
- `app/` is the command-line program around it: argument parsing, the
  directory walk, file reads, `ffprobe`, copies and the terminal output.
- `tests/` exercises the library on concrete values.
