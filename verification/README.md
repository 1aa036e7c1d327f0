# ai_client

A desktop client for the OpenAI API: chats with streamed answers, saved
conversations with titles and a search index, assistants with threads,
uploaded files and vector stores, and audio transcription.

## Layout

- `src/` is the library, verified with Verus:
  - `text` — string operations with their specifications (find, split,
    remove, trim);
  - `ids` — conversation keys made of a thread id and an assistant id, and
    how they split back;
  - `models` — the messages and the file and vector-store records;
  - `title` — the text a conversation's title is made from, and the
    cleaning of the title the model answers;
  - `stream` — the payloads of a server-sent event stream and the state of
    an answer being streamed (throttled updates to the window);
  - `data_url` — data URLs of files and reading bytes back out of them;
  - `chat`, `thread`, `tools` — what is sent for a chat completion or an
    assistant run, tool calls, and when polling a run stops;
  - `config`, `search`, `audio` — settings, search hits, audio splitting;
  - `outside` — the calls into `base64`, `chrono`, `markdown`,
    `mime_guess`, `rand` and `uuid`, each with the contract it is trusted
    to meet.
- `app/` is the program around the library: the commands, files, the
  database, HTTP and the OpenAI client. The commands are run from the
  command line (`ai_client <command> '<json parameters>'`) and their events
  are printed as JSON lines.
- `tests/` runs the library on concrete values.
