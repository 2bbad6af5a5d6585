# kernel_extract

Takes a kernel package (RPM) apart: stores the kernel image, the kernel config, the modules that
enclaves need with all that they depend on, and a manifest of these modules.

`src/` is the library. It decides everything and touches nothing: an extraction asks for one
operation on the system after the other and is told what came of each.

- `extract` is the extraction itself: `request` gives the operation that is waited for, `accepts`
  tells whether an event can come of it, `step` goes on with the event, `outcome` gives the result.
- `protocol` holds the operations, their outcomes, and what the user is told; `report` holds the
  texts of the latter.
- `state` is the mathematical model: the stages, the request of each, and where each reply leads.
- `config`, `layout`, `tree`, `process`, `manifest`, `modules` and `worklist` hold the rules: the
  config file's lines, where files lie, the search for a file, the dependencies that `modinfo`
  reports, the manifest's text, the order of modules, the order of work.
- `text`, `path` and `decode` are the byte strings and texts below them. `decode` and `report` hold
  the calls into the standard library whose contracts are believed and not proved.
- `runs` and `outcomes` speak of whole extractions: what has happened by the time one ends, which
  modules it returns, how long it can be, and that it asks for no change outside its output
  directory.

`app/` performs the operations: files, directories and other programs.
