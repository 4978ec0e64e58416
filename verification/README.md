# orb8

Network observability for Kubernetes nodes. Probes in the kernel report
packets; the agent attributes them to pods, aggregates them into flows and
answers queries; a command line client shows the answers.

`src/` is the library, verified with Verus:

| module | what it holds |
| --- | --- |
| `aggregator`, `flow_table` | flows in a table of bounded size, with eviction and expiry |
| `pod_cache`, `pod_table` | pods by address and by cgroup, both within the same bound |
| `k8s_watcher` | news from the cluster, and when to reconnect |
| `ingest` | from a packet to its pod and its flow |
| `service` | queries for flows, reports, the agent's status |
| `health`, `health_server` | the agent's condition and the HTTP answers on it |
| `probe_loader` | kernel check, choice of interfaces, order of attachment, polling |
| `config` | settings from the environment |
| `cli` | what the client reads and shows |
| `text`, `time`, `order` | text, spans of time, sorting |

Functions named `law_...` state what holds across calls. Calls into `dashmap`
and parts of the standard library stand behind trusted items, each of which
says what it claims.

`app/` is the program around the library: tasks, sockets, gRPC, the Kubernetes
client, eBPF. Called as `orb8-agent` it is the agent, otherwise the client. Tasks
share the library's state behind one lock. The probe object is loaded from
`/usr/lib/orb8/network_probe`.
