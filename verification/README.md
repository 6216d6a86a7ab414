# waycal

Calendar and task logic for a desktop calendar: Google accounts through the `gws`
command, Nextcloud accounts through CalDAV, and a daemon that announces events and
tasks.

`src/` is the library, verified with Verus. It plans requests and commands, reads
what comes back, and decides what to show. `app/` performs the requests, runs the
commands and keeps the files. `tests/` runs the library on concrete values.

| module      | what it holds                                                        |
|-------------|----------------------------------------------------------------------|
| `text`      | texts as sequences of characters: trimming, numbers, comparison       |
| `textmap`   | maps and sets of texts                                                |
| `time`      | days, instants and the clock, over chrono and chrono-tz               |
| `json`      | JSON values, over serde_json                                          |
| `ical`      | iCalendar components, over the ical crate                             |
| `ics`       | content lines: escaping and folding                                   |
| `dav`       | multistatus documents, over roxmltree                                 |
| `model`     | calendars, events, guests and tasks, from JSON and from iCalendar     |
| `compose`   | iCalendar objects from drafts                                         |
| `roundtrip` | laws: what is written is read back                                    |
| `config`    | the configuration and its validation                                  |
| `backend`   | drafts and what is fetched for an account                             |
| `caldav`    | the Nextcloud backend                                                 |
| `gws`       | the Google backend                                                    |
| `daemon`    | reminders, new tasks and the daily digest                             |

Proof functions named `law_..` state what holds across functions.
