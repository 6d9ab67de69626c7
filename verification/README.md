# swaymsg_workspace

Workspace operations for the Sway compositor that keep to the output of the
focused container: select the next or previous workspace, swap a workspace
with its neighbour, raise or lower its number, rename it while keeping its
number, select or move a container to a workspace by number, and the helpers
for rofi.

- `src/` is the library, verified with Verus. `lib.rs` carries out a command
  (`execute_userinput`) and states, as stages of steps, the commands it hands
  to the connection and what it answers for each reply; a connection that
  keeps a record of what it is handed (as the recording `MockConnection` does)
  is stated to have received exactly those commands after what it held
  before, and `Workspaces::new` keeps the connection that an adapter which
  reports its parts (as `MockIPCAdapter` does) hands on; `workspaces.rs` holds the workspaces of all screens and the
  operations on them; `order.rs` sorts workspace names; `text.rs` and
  `fragments.rs` read numbers out of names; `laws.rs` states what holds of the
  commands across all inputs.
- `app/` is the command line program: it talks to Sway through `swayipc`,
  prints what a command prints, and hands the command to the library.
- `tests/` runs the library against recorded, plain-value workspaces.
