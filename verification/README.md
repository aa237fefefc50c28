# fsct_roon

The verified core of a bridge that lets Roon outputs drive FSCT players, written in
Verus.

`src/` holds the decisions of the bridge, each with a contract proved by Verus:

- `config`: the list of pairings between Roon outputs and FSCT devices, and the
  application's configuration paths.
- `mapping`: output id -> device id mappings (`Mappings`), the pairing service and
  where the mappings file lives.
- `player_manager`: which player stands for which output and which outputs form a zone.
- `output_manager`: which outputs are available and which player registrations that
  calls for (`SyncPlan`, `MappingChange`).
- `zone_handler`, `conversions`, `state_cache`: what a zone event means for the players
  and what is cached for each output.
- `settings`: the settings page (its layout and the settings <-> mappings conversions).
- `device_manager`: the detected FSCT devices.
- `ids`: device ids as text, read back, and sorted; `table`, `text`: the ordered
  association table and string helpers the rest is built on.

Each module also states and proves its laws as `law_*` proof functions.

`app/` is the program around the library: the Roon and FSCT connections, the files,
and the async plumbing that carries out the plans the library computes.
