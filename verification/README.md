# dupfinder

Finds duplicate files (size, then a BLAKE3 hash of the first 8 KB, then of
the whole content), empty files and directories, broken symbolic links and
visually similar images, and plans and carries out their safe removal.

- `src/` is the library, verified with Verus: the ignore presets and
  `.dupignore` rules, the traversal's decisions, the three duplicate stages
  and the hash cache, empty-file and empty-directory detection, broken links,
  image clustering by perceptual-hash distance, the text report, the cleanup
  plan with its safety checks and the steps of its execution, the command
  line's parsing of sizes, presets and answers, and the interactive
  inspector's state. Each public function states what it returns; the laws
  that relate several functions are the public `law_*` proof functions.
- `app/` is the program around it: argument parsing, reading and walking the
  file system, hashing file contents in parallel, JSON, the trash, the
  terminal interface.
- `tests/` runs the library on concrete values.
