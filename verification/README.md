# tmux-agent-sidebar

A sidebar for tmux that watches coding agents: which panes run one, what each is
doing, what changed in the repositories they work in, and what their collectors
know of them.

`src/` is the library, verified with Verus. It holds what the sidebar decides and what
its rows say; their colours, and the commands and files around it, are left to `app/`:

- `tmux/` reads what tmux lists, and says what tmux is told.
- `process`, `port` find agents, ports and background shells among processes.
- `state/` is what the sidebar knows: panes, focus, tasks, collectors, clicks.
- `git/` reads git and Arc output, and merges and rebuilds patches.
- `extension` checks configurations and replies of collectors.
- `desktop_notification`, `diff_viewer`, `workers` hold the rules of those parts.
- `ui/` lays out and words the list of panes, the popups and the git panel.
- `text`, `scan`, `cut`, `number`, `order`, `textmap`, `assoc`, `bytes`, `json`, `paths`,
  `chain`, `geometry` are what the rest is built from.

`app/` is ordinary Rust around it: it runs commands, reads files, keeps threads and
paints with ratatui. It hands plain values in and carries decisions out.

`tests/` runs the library on concrete values.
