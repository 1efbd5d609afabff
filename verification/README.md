# meridian_api

Exact monetary amounts, authentication and account-recovery flows, and cursor
pagination, verified with Verus.

| Module | What it holds |
|---|---|
| `amount` | `Amount`: a strictly positive number of stroops, with checked arithmetic, fees and decimal text |
| `decimal` | unsigned integers in decimal text |
| `auth::tokens` | `TokenStore`: issue, verification, rotation and revocation of tokens |
| `auth::flows` | `AuthService`: login with lockout, logout, verification, session refresh, listings |
| `auth::recovery` | `RecoveryService`: one-time recovery tokens, listings |
| `auth::validation` | checks on what requests carry |
| `pagination` | `Cursor`, base-64 text, `compute_page`, `PaginatedCollection` |
| `clock`, `text` | the system clock and small string operations |

Each stateful type has a mathematical model as its view (`StoreState`,
`AuthState`, `RecoveryState`).  Operations are spec functions on the model, and
every method states that it performs one of them.  Methods that depend on the
time come in two forms: `login_at`, `refresh_at` and the like take the time as an
argument and have exact contracts; `login`, `refresh` and the like read the clock
once and say that some moment `now` explains both the result and the new state.

Properties that span operations are public proof functions named `law_*`, next to
the types they speak of.

What is taken on trust: the reading of the system clock (nothing is claimed of
it), `String::push`, and `String::from_utf8`.

`app/` offers the errors as `std::error::Error`, amounts as `Display`, and
lifetimes as `std::time::Duration`.
