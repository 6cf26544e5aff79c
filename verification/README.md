# daily_standup

The rules of a GitHub Action that opens a dated standup issue in a repository,
mentions every member of the chosen organization teams and assigns up to ten of
them, proved with Verus.

- `src/` is the verified library:
  - `text`: white space, ASCII case and splitting, as `str::trim`,
    `str::eq_ignore_ascii_case` and `str::split` define them.
  - `config`: the action's inputs, their checks, and the issue title.
  - `github`: what is read out of GitHub's answers (issue types, the latest
    open issue, the created issue, pagination links).
  - `dsm`: mentions, assignees, merged team members, and the standup run as a
    state machine from GitHub's answers to the next request.
  - `domain`, `application`, `infrastructure`: the entities, the decisions of
    the use cases, and the GitHub adapter.
- `app/` is the program: environment, template file, HTTP requests through
  `reqwest`, and the loop that performs what the run asks for.
- `tests/` exercise the library on concrete values.
