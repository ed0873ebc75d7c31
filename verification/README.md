# lockedenv

Type-safe, freeze-on-load environment variable management: every variable is
read once, parsed into a typed value, and every failure is reported with the
variable's name, the value found (redacted for secrets) and an optional hint.

The library under `src/` is verified with Verus:

- `parse` — the `FromEnvStr` trait (which texts a type accepts, the value
  each gives, the failure text otherwise, what an absent key gives) and its
  implementations for strings, booleans, characters, every primitive integer
  type, `Duration`, `PathBuf`, `url::Url`, `Option<T>`, `Vec<T>` and `Secret<T>`.
- `number` — decimal integers with sign and bounds, read digit by digit.
- `duration` — durations such as `"1h30m"` or `"1.5h"`, summed in nanoseconds.
- `list` — comma-separated lists: split, trimmed, empty items dropped.
- `lock` — one configuration field: its key, its text (from the environment
  or a map), its default, and the resulting value or error.
- `check` — collecting every field's error and the message listing them.
- `error` — `EnvLockError`, its hints and its text.
- `dotenv` — what loading a `.env` file ends in.
- `watcher` — drift detection between snapshots of watched variables.
- `text` — characters, trimming, decimal rendering.

`app/` holds what touches the process: reading the environment, loading
`.env` files (dotenvy), the watcher thread, the `load!`/`from_map!`/`check!`/
`env_struct!`/`watch!` macros, and a `Secret` type with a redacting `Debug`,
redacting `serde` output and zeroize-on-drop.

Field types in the macros are the library's `FromEnvStr` types, or
`Secret<T>` of this `app/` crate, which is read through the library's
`Secret<T>` (`app/field.rs`).

## What the library leaves out

- `IpAddr`, `Ipv4Addr`, `Ipv6Addr` and `SocketAddr` are not parsed: the
  verified library may not use `std::net`, and `app/` cannot implement the
  library's trait for std types.
- `f32` and `f64` are not parsed: the library holds no floating-point values.
- The library's `Secret<T>` has no `Debug`, no `serde` impls and does not
  zero its value when dropped (a verified type cannot implement `Drop` through
  zeroize's trait); it can be wiped explicitly with `Secret::<String>::zeroize`.
  The `app/` `Secret<T>` adds all three.
- A hint attached with `with_hint` is shown on every kind of error, `Missing`
  and `Dotenv` included, as the method's documentation says; attaching a hint
  is never a no-op, so there are no tests that expect it to be one.
