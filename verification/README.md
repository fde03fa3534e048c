# dockman

Manages `docker compose` stacks on the machines of a LAN over plain ssh:
each action is `ssh <alias> "cd <dir> && docker compose <subcommand>"`.

`src/` is the verified library:

- `text`: trimming, lines, whitespace tokens and searching over characters.
- `quoting`: single quotes for the remote login shell, double quotes for bash,
  each proved to read back as the quoted text.
- `model`: hosts, compose directories, services, statuses and outcomes.
- `image_ref`: splitting image references, Docker Hub name normalisation, and
  finding the running digest among `RepoDigests`.
- `version_check`: the remote script of the update check and the reading of
  its output into up to date / update available / unknown.
- `compose`: the stack commands, the reading of `docker compose ps` services,
  and the status and outcome records.
- `store`: the host list with look-up, insert-or-replace and removal laws.
- `ssh_config`: `Host` and `Include` entries of `~/.ssh/config`.
- `sorting`: sorted lists of distinct texts.

`app/` holds the ssh calls, file access, persistence of `hosts.json`, the serde
forms of the types and the commands that the GUI invokes.
