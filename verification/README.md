# pexrc

The platform, version, interpreter and resolve logic of the PEX runtime
controller, verified with Verus.

- `src/` is the verified library: Python versions and implementations,
  platforms and their wheel tags and environment markers, interpreter
  constraints and the binary names they admit, PEX-INFO values, fingerprints,
  script shebangs, the resolver that filters, ranks and picks wheels for
  requirements, the choice of the interpreter a PEX resolves for, and the
  decisions of the search for Python executables. Public functions state
  their results in their `ensures`, over named spec functions where a result
  comes from an outside crate; the laws the library keeps are public proof
  functions named `law_*`.
- `tests/` runs the library on concrete values.
- `app/` is the I/O around it: command-line options, output sinks, the
  process-wide terminal setting, reading files and the host, the loop that
  loads and tries interpreters, and JSON output.
