# ouou_dictation

A command-line tool for self-guided dictation practice in Chinese, Japanese or
English: it speaks the words of a list, records what is typed for each, lets
the answers be edited, and writes out the wrong ones.

- `src/` is the verified library (Verus): trimming and number parsing of typed
  lines, the dictation session (answers, edits, correction list), the choice of
  a voice, the preparation of a word list, and the simpler judge-as-you-go
  dictation flow. Language detection (`lingua`) and shuffling (`rand`) are
  called from the library through trusted wrappers; their contracts state what
  the outside source fixes (a permutation given by some seed; no language for a
  text without letters; for text of Han letters and kana, Japanese when it has
  kana and Chinese otherwise; English for ASCII text with a letter), not which
  answer a run gives for other text.
- `app/` is the program around it: argument parsing, the terminal, speech
  output, progress bars and files.
- `tests/` exercises the library with concrete values.
