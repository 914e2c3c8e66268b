# requestsautomation

A task-automation service for a REST identity backend: it lists the
backend's provisioning tasks, shapes them into a task table, keeps them in a
CSV task file, and retries an action on each queued task.

- `src/` is the verified library (Verus): query URLs, the task table and its
  filtering and ordering, the CSV task file and its queue, the listing and
  retry state machines, and the answers and error statuses of the requests.
  Date parsing goes to `chrono` and pattern matching to `regex`, behind
  trusted wrappers whose contracts name what they return.
- `app/` is a command-line front end (`list`, `action`, `check`, `delete`,
  `reload`) that performs the HTTP calls and file I/O the library asks for.
  It has no database connection.
- `tests/` holds the tests of the library.
