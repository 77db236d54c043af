# ktail

Tails the logs of many Kubernetes pods, or of a local file, in one view.
Highlighting rules count how often their regular expressions match and let
you step through the matches.

The logic is written in Verus and proved against its contracts:

- `src/` is the library. Each module states what its functions return over
  spec functions (`Seq`, `Map`, `Multiset`, views of the data types) and
  proves it. Calls into outside crates (regex, uuid, base64, chrono, crc,
  encoding, directories) stand behind small trusted wrappers whose doc
  comments say what is believed of them.
  - `kube_config`, `kube_client`: kubeconfig lookup, credentials, request
    URLs and the client's settings.
  - `kube_reader`, `log_stream`, `log_worker`: which containers to stream,
    how chunks become lines, and the time-ordered line store.
  - `log_file`: tailing a local file and reacting to changes.
  - `rules`, `rule_list`, `search`, `regex_ops`: highlighting rules, their
    changes, and searching lines with them.
  - `match_select`, `navigation`, `extract`: moving between matches,
    grouping extracted values, bookmarks.
  - `overview`: per-minute counts for the chart.
  - `pods`, `model`, `log_view`, `config`: the state machines of the pod
    selector, the log view and the toolbar, and the saved settings.
  - `text`, `compare`, `assoc`, `color`, `dirs`, `error`: shared helpers.
- `tests/` runs the library on concrete values.
- `app/` is the command-line program around it: arguments, files, the
  network, JSON and YAML.
