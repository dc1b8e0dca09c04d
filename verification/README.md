# maroon

A set of small services and tools around the Maroon task runtime, with their
logic verified by Verus.

- `src/` is the verified library:
  - `tasks`, `task_messages`, `task_requests`, `logical_time`: the timed task
    programs (delayed messages, divisors, Fibonacci, factorial) as a single
    transition function, their texts, and the requests that start them;
  - `scheduler`: the runtime that runs the earliest due step of the active
    tasks, in time order, first queued first among equal instants;
  - `task_runs`: what a task does when run to its end, and that the scheduler
    moves each task as it would move on its own;
  - `task_layers`: the layers of a task graph, or the report of a cycle;
  - `ackermann`: the Ackermann function and the transcript of its evaluation;
  - `maroon_vm`: the stack machine that runs JSON bytecode programs;
  - `http`: content negotiation on the `Accept` header;
  - `trades`, `journal`: the rules of the trade feed and of the sums journal;
  - `mermaid`, `terms`, `calculator`, `greeting`, `broker`, `strings`, `text`:
    smaller pieces (sequence diagrams, identifier conventions, the calculator,
    messages, string helpers).
- `tests/` exercises the library on concrete values.
- `app/` holds the programs: HTTP and WebSocket servers, the trade feed, the
  storage and broker clients, and the command-line tools, each a subcommand.
