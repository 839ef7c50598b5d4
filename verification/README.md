# snitch

Tracks `TODO:` lines in source files through GitHub issues.

- `snitch` reports every untracked `// TODO: some thing` as an issue and rewrites the
  line as `// TODO(#1): some thing`;
- `peek` lists the first issues of the repository in a table;
- `audit` removes the tagged lines whose issues are closed.

`src/` is the library, verified with Verus: splitting and joining of lines, the
decisions of each command (as scans that hand out the next question for the tracker
and take its answer back), the configuration, the requests sent to GitHub and the
judgement of its answers, and commit messages. `app/` holds the program around it:
command line, files, `git`, threads and HTTP.
