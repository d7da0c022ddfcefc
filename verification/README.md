# Hikvision to UniFi Protect fire bridge

A daemon that listens to a Hikvision (thermal) camera's ISAPI alert stream and
triggers a UniFi Protect Alarm Manager incoming webhook when a fire-detection
event occurs.

The logic is a library verified with Verus; `app/` holds the I/O around it.

| Module | What it does | What is proved besides its contracts |
|---|---|---|
| `framing` | cuts the byte stream into XML documents | chunk boundaries make no difference; every frame is a whole document; the buffer stays bounded |
| `xml`, `event` | read an event out of a document | the first occurrence of a field wins; a channel is safe to log; a missing state is no drop |
| `state` | per-source fire state machine | a pending edge is never lost; no fire is silenced; the alert rate and the number of sources are bounded; a lost `inactive` or a lost stream arms the source again |
| `pipeline` | matcher and tracker put together | events that are not fire never trigger; a missing state fails toward alert; a session end re-arms every source |
| `camera` | sessions, redaction, reconnect backoff | every session end owes one reset before the next session; the camera's address is gone from errors (unless the placeholder holds it, as it does a host named `camera`); the waits double, are bounded, and reset after a healthy session |
| `webhook`, `status` | delivery policy | bounded attempts, no retry of permanent errors, linear backoff |
| `probe`, `health` | readiness and counters | a failed delivery latches until a success; no startup optimism; every unmatched event type is shown, and the list is bounded |
| `config`, `weburl` | configuration from variables | what loads is safe; defaults; every error is one of a fixed set of texts; secrets in no error and no debug text |
| `lifecycle` | command line, process outcome, health check | |
| `text`, `clock` | text primitives, spans and points in time | a replaced text is gone; decimals read back |

Trusted without proof are the `bytes` buffer, the URL grammar of `url`, the XML
grammar of `quick-xml`, the header rule and the status texts of `reqwest`, and a
few functions of std; each stands behind one small function whose comment says
what is taken for granted.
