# nucleotide

The workspace logic of a GUI front end for a modal text editor, written in
Verus: the library's functions carry contracts that Verus proves, except
the few small wrappers (marked `#[verifier::external_body]`) that call
std and outside crates, whose contracts are trusted.

- `src/` is the verified library. Each module models one part of the
  interface as plain data with a view: typed editor commands
  (`command_system`), completion prefixes (`prefix_extraction`), split-pane
  geometry and resizing (`split_resize`), the file tree and its panel
  (`file_tree`, `tree`, `file_tree_panel`, `simple_file_tree`, `paths`,
  `file_icons`), version-control statuses with their cache (`vcs`),
  language-server state (`lsp_state`), pickers, prompts and completion menus
  (`picker`, `prompt_state`, `completion`), the single-instance launch
  request (`single_instance`), search, key routing, key hints, the status
  line, buffers and the text runs of a drawn line. Public proof functions
  (`lemma_*`) state the laws that hold across operations.
- `tests/` runs the library on concrete values.
- `app/` is a terminal program around the library: it reads directories,
  runs `git status`, loads `nucleotide.toml`, and forwards launch requests
  through the single-instance pipe.
