# limitcut

Seamlessly combine two overlapping video recordings into a single MP4.

limitcut takes a **pre-video** (like a replay buffer clip) and a **post-video**
(the full recording that starts slightly before the pre-video ends), finds where
they overlap using audio cross-correlation, and stitches them together with
ffmpeg.

## Layout

- `src/` is the library, verified with Verus. It decides and computes: modes and
  settings, filter graphs and commands, the cut point, metadata files, output
  paths, messages and exit codes.
- `app/` is the program around it: the command line, files, ffmpeg processes,
  the upload, and the scoring of sound, which is floating-point work.
- `tests/` holds the tests of the library.

## What is proved

Every function of the library states what it returns for every input, and is
proved to do so, without overflow or panic. Beyond that, `law_…` functions state
what holds across functions, among them:

- a region, a number and a list of parts read back as they were written;
- a folder name made of an encounter or a job holds no separator, no white space
  and no control code, and making it again changes nothing;
- the stages of the filter graph form one chain that ends in the two streams
  that the command maps, and a title adds a last stage to it and no more;
- a shell that reads the command that a dry run prints gets the program and the
  arguments that an encode runs;
- the error of a failed upload does not hold the address of the webhook, unless
  that is empty or stands in the words that every such error has;
- however much is skipped of the pre-video, what is read of it ends at the cut
  point, to within the rounding of its length, and the output never starts with
  more than four seconds of black;
- a dry run encodes nothing, and a preview does nothing else;
- a batch goes through all its files, whatever becomes of them, and a descriptor
  that is moved away gets the first name that is free;
- a setting of the command line holds whatever the configuration says.

Times and scores are binary64 numbers, held by their bits. What is computed with
them is computed on whole numbers, and proved to be what their arithmetic gives:
the number nearest to the exact result. What is believed of other code without
proof stands in three places, each with its contract: `String::push` of std in
`src/text.rs`, chrono's parsing and formatting of a date and time in
`src/timestamp.rs`, and serde_json's text of an object in `src/discord.rs`.
