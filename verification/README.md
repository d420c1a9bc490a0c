# abtop

Finds the sessions of terminal coding agents on a machine: kimi-code, Hermes
and Pi. For each session that runs it tells the process, the working directory,
the status, the tokens used, the conversation, the tools called, the files
touched and the processes below it.

`src/` is the library, verified with Verus. It reads no file and starts no
process: it is handed the text of files, their times and a table of processes,
and computes from them.

- `json`, `jsonl`, `text`, `number`, `timestamp`: documents, logs, strings and
  times;
- `activity`, `content`, `cache`, `caches`, `tailing`: what a growing log says
  of a session, read a part at a time, and what is kept of it;
- `process`: the processes and the trees they form;
- `model`, `order`, `report`, `bounded`, `policy`: what is reported, and how;
- `kimi`, `hermes`, `pi`: the three agents.

`app/` reads the files, asks for the processes' directories, queries the
database of Hermes and hands all of it to the library. What is shown of a text
that a terminal would interpret, or that may hold secrets, is for the embedding
application to say: it implements `policy::HostPolicy`.
