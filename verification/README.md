# buildy

Builds and runs the targets of a project, and builds them again when their files change. The
targets stand in `.buildy.yml`: each has a name, the targets that it depends on, the paths to
watch, and the commands that build and run it.

## Layout

- `src/` is the library, verified with Verus. It decides; it does not read, watch, run or print.
  - `builder`: the targets, their sanity check, the record of changed files, the choice of the
    targets to build, the end of a build
  - `schedule`: what the build loop knows, what follows from each of its events, when it has come
    to its end, and which targets are running
  - `build_loop`: the build loop, turn by turn
  - `target_build`: the build of a target, step by step
  - `command`: running commands, their output, and killing them
  - `digest`: the checksum of a target, from the SHA-1 digest of the `crypto` crate
  - `writer`: lines with a prefix in front
  - `color`: a colour per name
  - `config`: names and colours of the targets, and their order
  - `error`: what can go wrong, and the messages about it
  - `names`, `text`, `target`: sets of names, texts, and the targets themselves
  - `laws`: what holds of the builds as a whole: dependencies come first, a target is built by one
    build at a time, and all targets get built where the dependencies have no circle
  - `loop_laws`: what holds of the loop as a whole: the first build that fails ends it, a change
    during a build causes one more, and a loop that watches nothing ends once everything is built
  - `run_laws`: what holds of the loop and the runs of the targets together: a target that was
    built again is restarted, and its runs do not overlap
- `tests/` runs the library on examples.
- `app/` is the program: it reads the configuration, watches files, starts threads and processes,
  and writes to the terminal.
