# gallerypi

A photo and video gallery for small Linux devices with a touch screen. The
media directory is indexed into SQLite, photos and videos are shown in a
month-grouped thumbnail grid, images open in a swipeable viewer and videos
play with hardware decoding where available.

The core of the gallery is a Verus-verified library (`src/`):

- `gallery` – the month-grouped grid layout (`build_rows`), the gallery
  controller (month lookup, cells, shown thumbnails) and the data handed to
  the display;
- `scanner` – the scan plan (which directories to skip, rescan or forget,
  which records are orphaned), media types by extension, path comparison by
  components, and the media date read from a file's EXIF data;
- `thumbnail` – image decoding, thumbnail naming and rendering (centre
  crop, resize, JPEG), the LRU cache of decoded thumbnails and the
  scheduling of generation and loading;
- `viewer` – navigation within a month and preload planning;
- `video` – the decisions of the decoder loop (commands, pausing, seeking,
  looping, decoder choice) and frame packing;
- `config`, `util` – settings and their defaults, month labels, dates,
  thumbnail cache keys, log throttling, base64 and pixel conversion.

The functions state their behaviour in `requires`/`ensures`; where a result
comes from an outside crate (the EXIF reader, the image decoder, the
resizer, the JPEG encoder, the clock), the contract speaks of it through a
named function of its inputs or states only what holds of every outcome.
Properties that span several calls are proved as `law_*` proof functions.

`app/` holds the program around the library: configuration file, platform
directories, database, file reading and file-system walking, worker threads
and the video decoder.
`tests/` exercises the library on concrete values.
