# tfstatediff

Compares two Terraform state (`.tfstate`) snapshots: which resource instances were
created, destroyed or changed, attribute by attribute, and which outputs changed.
Sensitive values are never shown: a fixed marker stands in their place, while a
change of such a value is still reported.

    tfstatediff old.tfstate new.tfstate

The exit code is 0 where the states have no differences, 1 where they have, and 2
where a file cannot be read.

## Layout

The library in `src/` is verified with Verus.

- `text`: the order of texts, decimal numerals, searching.
- `map`: a map from texts to values, kept in the order of its keys.
- `value`: JSON values and their mathematical model.
- `json`: the boundary to `serde_json`; what is trusted of it stands there.
- `flatten`: nested values as flat listings of dotted paths.
- `sensitive`: which paths name sensitive values, and the marker.
- `state`: states, resources, instances and their addresses.
- `diff`: the differences of attributes, resources, outputs and whole states.
- `report`: the text of the report, and the exit code.
- `laws`: what holds of comparisons, matching, addresses and paths as a whole.

The program in `app/` parses the command line, reads the two state files and prints
the report.
