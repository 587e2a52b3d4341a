# dbsc

Server side of **DBSC (Device Bound Session Credentials)**: a session is bound to a
key that the browser holds, and every refresh of the session is a proof that the
browser still has it. The library is verified with Verus: each function carries a
contract that says what it returns, over what the clock, chance and the session
store gave where it asks one of these, and the promises that span functions stand
beside them as proved laws (`law_...`).

## Layout

| Module        | What it holds                                                          |
|---------------|------------------------------------------------------------------------|
| `header`      | structured-field headers: registration, challenge, response, id, skipped |
| `instruction` | session instructions and their JSON text                               |
| `jwt`         | proof JWTs: decoding, ES256 / RS256 / `none`, registration and refresh rules |
| `session`     | the session, its expiry, the clock                                     |
| `store`       | the `SessionStore` trait and the in-memory store                       |
| `manager`     | the flows `initiate`, `register`, `refresh`, `close`                   |
| `json`        | reading claims from JSON text                                          |
| `render`      | writing JSON text                                                      |
| `text`        | characters, whitespace, splitting, decimal and hexadecimal             |
| `error`       | the error type                                                         |

`app/` is the code around the library: errors as `std::error::Error`, models that
serde reads and writes, a manager that threads share behind a lock, and a simulated
exchange between a server and a browser.

## Use

```rust
use dbsc::{Manager, ManagerConfig, MemoryStore, Result};

fn flow() -> Result<()> {
    let mut manager = Manager::new(
        MemoryStore::new(),
        ManagerConfig {
            session_ttl_seconds: Some(3600),
            authorization: Some("login-auth-code".into()),
            ..Default::default()
        },
    );
    // After a login: session cookie and registration header.
    let (session, _response) = manager.initiate("user-123")?;
    // 200: bound to the key; 403: `challenge_header` has the challenge to sign;
    // 400 and 401: wrong state, unknown session.
    manager.register(&session.id, Some("\"eyJ...\""))?;
    // `None` is the optimistic first request, answered with 403 and a challenge.
    manager.refresh(&session.id, None)?;
    // Body `{"continue":false}` and an expired cookie.
    manager.close(&session.id)?;
    Ok(())
}
```

## What is trusted

Signatures (`p256`, `rsa`, `sha2`), base64url (`base64`), single JSON values and
strings (`serde_json`), random bytes (`rand`), session ids (`uuid`) and the clock
(`std`) are called through small wrappers whose contracts are not proved. Each says
above it what it claims of the function that it calls. A backend of your own
implements `SessionStore`; what the manager promises then rests on the contract of
that trait.
