# player_lyrics

Shows the lyrics of the song that an MPRIS media player is playing, fetched
from Genius, either in the terminal or (with `--gtk`) in a GTK window.

- `src/` is the verified library: the Genius page address of a song
  (`geniusgetter::build_url`), the lyrics extracted from a page
  (`geniusgetter::extract_lyrics`), their clean-up
  (`utils::genius_lyrics_cleaner`), the song read from a player's metadata
  (`musicfinder`), and what the interfaces show (`user_interface`).
- `app/` is the program around it: D-Bus access to the player, HTTP requests,
  the terminal and GTK interfaces and their polling loops.
- `tests/` runs the library on concrete values.
