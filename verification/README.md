# btrbak

Incremental backups of Btrfs subvolumes to another disk, with an optional live boot
environment on that disk from which the backed up system can be started.

The crate is a Verus library: what each function does is stated in its contract and proved.
The program around it is small and only carries out what the library asks for.

## How it works

A procedure of the library never touches the system. It is given a `Session`, asks for one
piece of work at a time (run this command, rename that path, transfer this subvolume) and goes
on from the reply. What a procedure does is stated as a `Plan`, a tree of requests in which
every reply leads to what comes next; the contract of the procedure says that it follows its
plan on every list of replies. The program performs the waiting request, adds the reply, and
starts the procedure again with the longer list.

What holds of the procedures as a whole is proved of their plans, for every course that a run
can take.

## Layout

`src/` is the library.

- `text`, `path`, `spelling`, `error`, `ui`: strings, paths, names that are no text, errors with
  their hints, and what is shown.
- `journal`, `trace`, `change`: sessions, plans, and reasoning about the requests of a plan and
  what they change.
- `command_runner`, `btrfs`, `device`, `config`, `hooks`, `liveboot`, `snapshot`, `backup`,
  `cli`: the procedures.
- `holding`: all that a run mounts, unlocks or locks is given back.
- `course`, `restraint`, `usability`: the course of a backup, what a dry run and a validation
  leave alone, and which configurations are valid.
- `disk`, `delivery`, `undoing`, `rotation`, `environment`, `preparation`, `sparing`, `snapper`:
  on a model of the disk, replacing a subvolume never loses the old one before the new one
  stands, a transfer that fails is undone, a successful backup stores every source, the live
  environment follows the snapshots, and a prepared target can be prepared again.
- `exclusion`, `unlocking`, `tidying`: on models of the locks, the unlocked devices and the
  files, a lock keeps others out until it is given back, a device that was locked again is gone,
  and removing the snapper configuration twice is no different from removing it once.

`app/` is the program: the command line, the configuration file, the terminal, processes and
pipes.

`tests/` runs the library, most of it on a machine in memory.
