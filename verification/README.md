# transcribe-bot

A Discord bot that joins voice calls, transcribes what is said with a local speech recognizer, and
answers questions about the transcript with the help of a language model.

`src/` is a library whose every function is verified with Verus:

- `asr` cuts the audio of each speaker into utterances, queues them for the recognizer, and picks a
  model from a directory;
- `app` holds the state of calls: who speaks on which stream, the health of the voice connection and
  when to rejoin, the journal and the exported transcript, threads, commands, and automatic joins;
- `ai` writes requests to language models, reads their replies and their event streams, and decides
  when a request is sent again;
- `config` and `cli` read settings and arguments;
- `text`, `lines`, `json`, `seqs`, `maps` and `time` are what these share.

Theorems about several functions at once are public proof functions whose names begin with `law_`.
What the library takes on trust stands behind small functions marked `external_body`, each of which
names the function that it calls and says what it claims of it.

`app/` is the program around the library: the Discord client, the voice connection, files, HTTP
requests, and the signal processing in floating point. `tests/` exercises the library.
