# wechat_writer

The core of a writing-and-layout assistant for WeChat official-account
articles, verified with Verus: material extraction and chunking, the reference
context, the prompts of the writing, revision, layout and template steps,
the streaming reply decoder and its fallbacks, the cleaning of the model's
HTML, photos kept as data URLs, the workspace lists, the settings form,
reference-page reading, template and sticker rules, the zip export, saving
and restoring sessions, and the preparation of a draft for publishing.

- `src/` is the verified library; each module opens with what it covers.
- `tests/` exercises the library on concrete values.
- `app/` is the web application around it (HTTP server, configuration files,
  API clients); it expects `prompts/` and `frontend/` folders next to it.
