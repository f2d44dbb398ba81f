# otp_input

Input and focus logic for a fixed-length numeric one-time-code field.

- `src/text.rs` — digit filtering, UTF-8 and UTF-16 widths, and `byte_range`,
  which turns a UTF-16 range from native text input into whole-character byte
  offsets.
- `src/model.rs` — the abstract state (`OtpView`) and what each operation does
  to it: the next state and the effects (focus, cursor blinking, events,
  redraw) for the host to carry out.
- `src/state.rs` — `OtpState`, the executable state, whose every method is
  proved to match the model; its type invariant keeps the code to ASCII
  digits, at most one per box, with the selected box in range.
- `src/laws.rs` — properties across operations, proved over the model.
- `app/` — the gpui view around the state: focus handle, blinking cursor,
  element wiring, and carrying out the effects.
