# inkvoice_shell

The Windows shell of the InkVoice dictation tool: hotkeys and push-to-talk
start and stop a recording, audio goes to a local speech-recognition sidecar,
and the finalized transcript is typed or pasted into the focused window, or,
in Command Mode, turned into an editing keystroke.

- `src/` is the verified library: writing modes, voice-command matching and
  the custom command file, keyboard-event plans for typing, pasting and key
  combinations, the recording pill's geometry and text, the shell's hotkey
  and push-to-talk state machine, sidecar message classification, the
  microphone thread's retry decisions, and the process-tree walk used by the console probe. Each function carries its
  contract; the laws that relate several functions are public proof
  functions next to them.
- `app/` holds what runs around it: the Win32 message loop, the keyboard
  hook, `SendInput`, the clipboard, audio capture, the sidecar connection,
  the overlay window's drawing, and the diagnostic probes.
- `tests/` exercises the library on concrete values.
