# radhe

An offline study assistant for the terminal, with its logic written in Verus
and proved against its contracts.

- `src/` is the verified library: the prompts for each kind of request
  (`prompts`, `cli`), the cleaning of the model's output (`output`), quizzes
  (`quiz`), the chat and the interactive shells (`chat`, `shell`), settings
  and their precedence (`config`), usage statistics (`stats`), subject packs
  (`packs`), the setup wizard's answers (`setup`), model files (`models`) and
  update checks (`update`). Text handling shared by all of them is in `text`.
- `app/` is the program around it: argument parsing, files, the terminal, and
  running the local model.
- `tests/` runs the library on concrete inputs.
