# Songbird

A desktop HTTP client ("Let your APIs sing!") whose core is written in Verus.

* `src/` is the verified library:
  * `text` – character-level string helpers (Unicode trimming, ASCII case
    folding, searching, joining);
  * `model` – methods, headers, requests, saved requests and their ids, and
    the cURL importer (`model::curl::parse`);
  * `format` – recognising JSON/XML response bodies and laying them out;
  * `storage` – what saving and deleting do to the saved-request store;
  * `ui` – the request editor, the workspace state machine (`ui::app::App`)
    and the labels the window shows.
* `app/` is the program around it: the iced window, the JSON file that holds
  the store, the reqwest client, and the clock and counter that make ids.
* `tests/` exercises the library on concrete values.

Shell word splitting (`shlex`), Base64 (`base64`) and JSON parsing and
printing (`serde_json`) are called through small trusted wrappers whose
contracts say what those crates return.
