# poe2openai

A gateway that serves the OpenAI chat API on top of Poe. The logic of the
gateway is a library written in Verus; the program around it does the input and
output.

## The library (`src/`)

- `text`, `decimal`: strings as sequences of characters; numbers in decimal.
- `types`: messages, events, requests and replies, each with its mathematical
  value.
- `external`: the calls into other crates, with the contracts that are believed.
- `content`, `tokens`: the text of a message, the files it mentions, its tokens.
- `files`, `evert`: the files of an answer, and the events that make it up.
- `output`, `stream`: the answer as a whole, and as a stream of chunks.
- `errors`, `chat`, `config`, `poe_client`: what a request needs on its way to
  Poe, and what is answered when it cannot be served.
- `data_url`, `images`, `image_task`: the images of a conversation and their
  upload, step by step.
- `models`, `limit`, `settings`: the list of models, the spacing of requests, the
  settings.
- `file_laws`, `image_laws`, `stream_laws`: what holds of every answer and of
  every upload, whatever the outside world does.

Where the outside world decides, the library says what to do next and takes the
outcome as a value: `stream::OutputGenerator::process_stream`, whose messages
`stream::StreamOutlet` lets out, and `image_task::process_message_images` are
such steps.

## The program (`app/`)

Environment variables, files, the HTTP server, the Poe client, JSON and YAML. It
tests what the library's functions require before it calls them.

## Tests (`tests/`)

Ordinary tests of the library, with the real crates behind it.
