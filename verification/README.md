# arch-run

Runs programs of Arch Linux packages in an ephemeral sandbox, without installing them.

`src/` is a library of functions with contracts. Verus proves them all, but for those of
the four functions in `outside`, which call other crates and are believed:

- `layers`: what `pacman -Sp` says of a package and of what it needs
- `fetch`: which layers are missing, and the steps that download and unpack one
- `farm`: the tree of symbolic links that merges the layers, seen at `/tmp/arch-run`
  inside the sandbox
- `scripts`: absolute paths in shell scripts, set to the merged tree
- `merge`: what the steps of `farm` and `scripts` make of that tree
- `binaries`: which program of a package is run
- `sandbox`: the command line of `bwrap`
- `cache`: an application's cache directory (command line, then `APP_CACHE_DIR`, then the
  configuration file, then the system's default)
- `sandbox_io`: serving read and write requests below one directory
- `commands`, `engine`: the subcommands, the engine and its errors
- `paths`, `text`: paths as bytes and strings as characters
- `outside`: calls into other crates

Laws that relate several functions are the public proof functions named `law_*`.

`app/` is the program around it: arguments, processes, downloads and files.

```
arch-run <package> [arguments...]   run a package's program
arch-run --bin <name> <package>     run a particular program of it
arch-run --gui <package>            with display, sound and session bus
arch-run list                       list the cached layers
arch-run prune --all                clear the cache
```

Started under the name `sandbox_io`, the program demonstrates the file requests of
`sandbox_io` on a temporary directory.
