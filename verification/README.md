# octosync

Synchronizes the members of a GitHub organization to local user accounts on a Linux system.

- `src/` is the library. It holds the rules, and Verus proves their contracts: which members get,
  keep or lose an account and with which IDs, what a departure and a purge do to the users database
  and in which order, what becomes of an `authorized_keys` file, which groups a user is in, which
  archives are pruned.
- `tests/` runs the library.
- `app/` is the program around it: the command line, the GitHub API, the file system and the
  accounts of the machine. It performs the steps that the library asks for and reports what came
  of them.

Where work on the outside and decisions alternate, the library has a type that stands between two
steps (`SyncRun`, `Departures`, `Purge`, `Archiving`, `Walk`, `EnsuringGroups`) or a function from
a step and its result to the next step. `step` says what to do, `advance` takes what came of it.

## Commands

```sh
octosync sync --org <org-name> --app-id <app-id> --private-key <private-key.pem> \
  --group developers --group backend-team:backend
octosync purge --org <org-name> --app-id <app-id> --private-key <private-key.pem>
octosync delete
```

`sync` creates and updates accounts, disables those of members who left, and deletes those that
have been disabled for longer than `--purge-after-days` (180 by default). `delete` disables every
account. `--dry-run` previews all of it.
