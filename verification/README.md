# ffmpeg_caster

Screen capture and encoding around an ffmpeg process, verified with Verus.

`src/` is the library. It holds no input or output: it reads what a platform
reports, decides what is to be done, and says what ffmpeg is called with. Every
function states what it returns, and Verus proves it. `app/` is ordinary Rust
around it: processes, files, connections and the C interface.

| module | what it does |
|---|---|
| `display` | reads the displays from what Windows, xrandr or ffmpeg report; resolves `display://` URIs |
| `encoder` | reads ffmpeg's encoder list; picks the best encoder that works |
| `nal`, `nal_laws` | cuts an H.264 or HEVC stream into access units; what holds of that |
| `fanout` | the subscribers of one stream |
| `pipeline` | the arguments of ffmpeg; the life of a pipeline |
| `session` | setting ffmpeg up, reading from it, starting it again |
| `downloader`, `archive` | getting ffmpeg; extracting a zip archive |
| `elevate`, `stub` | starting ffmpeg with the rights of the system account on Windows |
| `ffi` | what crosses the C interface as numbers |
| `text`, `utf16`, `paths`, `error` | what the others are built from |

What waits for the outside world again and again (`session`, `downloader`,
`elevate`, `stub`) is written as steps from an event to the next action; `app/`
carries the actions out. What has few outside calls takes them as closures, and
its contract says when each is called and what its answer leads to. Where each
of many calls is to be made just once, a value is handed from call to call.

The zip crate is called from `archive`. What is taken on trust of it stands
there, above the functions that call it.
