# connector

A verified library for a small command-line tool that connects to SMB servers listed
in JSON "server list" files, with the interactive program around it.

- `src/` is the library, verified with Verus: a plain JSON value type with the reading
  rules of server list files and the document that the tool writes, the error
  explanations, the checks of server list file names and contents, the wizard that asks for a new server list
  (a state machine), the choices of the connection session, the planning of a CIFS
  mount (options, paths, host address resolution), and the `PATH` helpers.
- `app/` is the program: prompts, files, the registry, the Windows connection call
  and the mount system call, each handing plain values to the library.
- `tests/` runs the library on concrete values.
