# slonq

A job queue on PostgreSQL: enqueue under an idempotency key, dequeue in batches under a lease, then
acknowledge, give up or extend. Jobs whose lease expires come back until their attempts are used up.
Delivery is at least once.

The rules are a Verus library; what talks to the outside is ordinary Rust around it.

- `src/queue.rs`, `src/statement.rs`: the operations. Each checks its arguments and gives the SQL
  statement, with its parameters, that carries it out.
- `src/job.rs`, `src/error.rs`: what comes back.
- `src/rows.rs`, `src/table.rs`: what the statements say, done to a table in memory. The time,
  generated ids, stored payloads and rows locked by other sessions are handed in. That the table does what PostgreSQL
  does with the SQL rests on reading the two side by side; it is not proved.
- `src/table_laws.rs`: what holds of the statements together, such as that a lost lease changes
  nothing and that concurrent workers get different jobs.
- `src/histories.rs`: what holds over any sequence of statements, such as that a lease settles its job
  once, and that the attempt that it settles is the one that was handed out.
- `src/reading.rs`: which step on the table each statement stands for, parameter by parameter.
- `src/model.rs`, `src/properties.rs`, `src/model_laws.rs`: the queue with its workers as a state
  machine, eight safety properties that can be checked on a state, and the proof that they hold in
  every state that can be reached. Four of them hold for all parameters. The model counts lease ids in
  one byte, so unique lease ids take parameters for which that is enough; matching attempts, of done
  and of failed jobs, and single ownership take that, or that no worker can lose a lease.
- `src/js.rs`, `src/python.rs`: the shapes that jobs, leases and errors have in those languages.
- `src/outside.rs`: the calls into other crates, each with what is taken for granted of it.
- `app/`: the connection to PostgreSQL and the modules for Node.js and Python.
- `tests/`: scenarios, and the model under a model checker.
