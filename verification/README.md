# yerd-dump

The telemetry core of a PHP extension, and the extension around it. The
extension observes a few PHP and Laravel symbols, turns each observed call into
a frame, and streams the frames as newline-delimited JSON to a dump server on
the loopback interface. Telemetry is best effort: it must never break the
application.

The library under `src/` decides everything that can be decided on plain values,
and Verus proves that it does what its contracts say.

| Module | What it does |
|--------|--------------|
| `config` | the INI directive and `state.json` |
| `observer` | which calls are observed, and what is done when one begins and ends |
| `observers` | one module per category: dumps, queries (with their SQL), events, HTTP |
| `call_site` | the file and line of the application for an observed call |
| `render` | bounded text and HTML of a dumped value |
| `request` | the state of a request, its id, its summary, and the way to a frame line |
| `frame` | the line of a frame, its size budget, and truncation |
| `transport` | the state of the connection: one connect per request, none after a failure |
| `json`, `php`, `text` | JSON values and their text, PHP values, strings |

The crate under `app/` is the extension itself: it talks to the Zend engine, the
file system, the clock and the socket, and leaves every decision to the library.
Floating-point numbers stay there too, and reach the library as text.

## Frames

One JSON object per line:

`{"category":…,"ts":…,"site":…,"request_id":…,"payload":…}`

Where a line would take more than 256 KiB, its payload is replaced by
`{"truncated":true}`. What is left is within that budget unless the site of the
request alone fills it; category and request id are short.

| Category | Payload |
|----------|---------|
| `dump` | `file`, `line`, `value_html`, `value_text` |
| `query` | `bindings`, `connection`, `file`, `line`, `row_count`, `sql`, `sql_full`, `time_ms` |
| `job` | `connection`, `file`, `line`, `name`, `queue`, `status` |
| `view` | `data_keys`, `file`, `line`, `name`, `path` |
| `cache` | `event`, `file`, `key`, `line`, `store` |
| `log` | `context`, `file`, `level`, `line`, `message` |
| `http` | `duration_ms`, `file`, `line`, `method`, `status`, `url` |
| `request` | `duration_ms`, `ip`, `method`, `status`, `uri` |
