# voicebox

The verified core of Voicebox's desktop shell: audio output, the global
dictation hotkey, and the auto-paste pipeline of the Linux backend.

- `src/` holds the decisions and data transformations, with contracts that Verus
  proves: which devices a clip is played on and what each request of a device
  gets, what chord events mean for a recording, what is saved of the clipboard
  and put back, which keystrokes make up a paste, and what is said to the
  compositor. The `*_laws` modules state what holds across several functions.
- `app/` performs the work around them: audio devices, threads, the command
  socket, child processes, the clipboard connection, the window.
- `tests/` runs the library, with the outside crates it calls.
