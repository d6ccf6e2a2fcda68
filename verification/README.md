# bgrun

A minimal background job runner for Linux: it runs any command as a systemd user
unit. The library is written and proved in Verus; the program around it only spawns
processes, touches files and prints.

    bgrun -- make -j8                # run in background, name derived ("make")
    bgrun add dl -- wget URL         # named job "dl"
    bgrun add api --persist -- ./srv # or -b: also runs at every boot
    bgrun --restart -- ./srv         # or -r: retry whenever it exits non-zero
    bgrun list | status NAME | logs NAME
    bgrun stop NAME                  # stop for now, keep the job
    bgrun resume NAME                # start it again
    bgrun remove NAME                # stop and forget it for good

## Layout

- `src/cli.rs` reads the command line; `src/error.rs` words what is wrong with it.
- `src/name.rs` makes unit names; `src/path.rs` handles paths as bytes.
- `src/unit.rs` writes the unit file of a persisted job.
- `src/session.rs` decides, one outside action at a time, what each command does;
  `src/request.rs` holds the vocabulary of those actions.
- `src/trace.rs` proves what holds of whole sessions.
- `app/main.rs` performs the actions.

Words of the command line, paths and unit files are byte strings; text is only made of
them to be shown or matched.
