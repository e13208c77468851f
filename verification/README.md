# polarize_core

The platform-independent logic of `polarize`, an MCP server that automates
native macOS applications. Every function of the library is verified with Verus,
but for what it takes on trust from `std` and from the `base64` crate:
`String::push`, `char::is_whitespace`, `str::to_lowercase`,
`String::from_utf8_lossy`, the `Debug` form of a text, and base64 encoding and
decoding. The contract of each of these stands where it is declared.

- `src/` is the library. A module per tool holds its requests, its answers and
  its decisions: reading an accessibility tree, resolving a selector, placing a
  click, finding text, closing a notification, assembling a recording, shaping a
  script. `traits.rs` names what a platform has to supply.
- `tests/` runs the library on concrete values, with fakes for the platform.
- `app/` is the server around it: JSON, child processes, sleeping, printing.

Three conventions hold throughout.

- A number that reaches the library as a 64-bit floating-point value is held as
  its bit pattern (`binary64::Real`). Comparing numbers is proved on the bits.
  Arithmetic and decimal text come from the caller, through `binary64::Numbers`,
  and a contract says which operation a value is the result of.
- A tool reaches the platform only through `platform::Platform`, which holds the
  history of the calls that were made. Each `perform_*` has a `perform_*_on` that
  works on such a platform (for setting a value, `set_element_value_on`), and
  whose contract says exactly which calls were added, with which arguments and in
  which order. So it says that what is refused reaches the platform with nothing,
  and what is accepted with one press, click, write or run. The wait for grants
  is stated in the same way over its steps (`waiting::wait_watched`).
- The replies of the platform are for the platform to choose, and a contract
  holds whatever they are. A function that takes a reply as an argument says
  exactly what is answered for it: `plan_*`, `answer_*`, `after_read`,
  `check_target`, `report`.

The laws that relate several functions stand at the end of each module, as
public proof functions.
