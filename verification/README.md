# baro_bot

A QQ group bot built on kovi. The decisions the bot makes are a Verus
library with proved contracts; the event loop, HTTP calls and settings file
are a thin program around it.

- `src/` — the verified library:
  - `command`: telling a `/command` from an ordinary message;
  - `text`: reading and writing decimal integers exactly as std does, and
    Unicode trimming;
  - `live`: which rooms to poll, what changed in a room's status, and who is
    told about it;
  - `repeat`: the repeater that echoes a message sent often enough in a row,
    and its switches;
  - `shutup`: timed whole-group mutes and the message-length limit;
  - `chat`: the conversation history sent to the AI responder;
  - `timetable`: reading the lesson records of the school's timetable service;
  - `clock`: the wall-clock time of an instant at a fixed offset, and how it
    is written (`%y-%m-%d %H:%M:%S`);
  - `replies`, `message`, `config`: the bot's answers, message segments and
    settings.
- `tests/` — tests on concrete values.
- `app/` — the plugins: kovi handlers, HTTP requests, the settings file and
  the command dispatcher.
