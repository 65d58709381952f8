# files_proxy

A proxy that serves the files of a media server, and the agent that looks them
up in the database for it.

A client asks the proxy for a path. The proxy takes what it knows of the file
from its cache or from the agent, sends thumbnails on to the media proxy, and
fetches everything else from where the file lies. The agent sits next to the
database and keeps one TCP connection to the proxy, over which jobs and results
go as frames.

- `src/` decides, and Verus proves what it decides:
  - `wire`: the frames of jobs and results
  - `session`: which result belongs to which waiting job
  - `agent`: what a request asks of the database, and the response to it
  - `http`: the stages of a request for a file
  - `request`: a request as one value that goes through the stages
  - `http_laws`: what holds of a request from beginning to end
  - `headers`: header maps by their contents
  - `ping`: waiting for a sign of life, and the `ping` command
  - `config`: the settings of the proxy
  - `text`: UTF-8, decimal numbers, percent encoding, JSON, event ids
- `app/` does the input and output around it: sockets, the database, the cache,
  HTTP, and JSON parsing.
- `tests/` runs the library on concrete values.
