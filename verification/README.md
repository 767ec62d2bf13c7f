# umbral

The logic of Umbral, a desktop application that shows which classrooms are
available or occupied, as reported by sensors over MQTT, proved with Verus.

- `src/` is the verified library: settings (`settings.rs`, `state.rs`), the
  device list (`devices.rs`), the classrooms panel (`classrooms.rs`), sensor
  messages (`mqtt.rs`, `json.rs`), the MAC address field (`mac.rs`), camera
  registration (`firebase.rs`), the news slideshow (`news.rs`) and text
  helpers (`text.rs`).
- `app/` is the GTK application around it: windows and dialogs, files on
  disk, the MQTT broker and the HTTP requests.
- `tests/` runs the library on concrete values.

## Notes on the application

- Camera registration is a step function (`Registration::start` and
  `Registration::step` in `src/firebase.rs`); `app/firebase.rs` sends the
  requests it asks for and hands back each answer.
- `devices.json` is read and written by the library
  (`devices::devices_from_text`, `devices::devices_to_text`); each entry
  keeps its own JSON text, and only its `uid`, `name`, `mac` and `status`
  members are set over it when it is written back, so the other members are
  kept.
- Deleting or renaming a classroom changes `devices.json` only: no Firebase
  request is made to delete the camera's user or to rename its record.
- The compiled resource bundle `resources.gresource` (which holds
  `style.css`) and `Rumqttd.toml` are loaded at run time from the directory
  of the executable rather than embedded in it.
- Paths are handed to the library as text with `to_string_lossy`, so a path
  that is not valid UTF-8 is shown and compared in its lossy form.
