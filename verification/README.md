# cryptolab

Classroom cryptography, verified with Verus.

`src/` is the library. Its functions carry contracts that Verus proves,
except for a few small wrappers around outside crates (hashing, randomness,
the clock, JWT encoding and decoding, URL parsing, RSA key generation), whose
contracts state what those crates do and are trusted rather than proved, and
the two block modes that do no work (PCBC, CTR):

- `hill` – the Hill cipher over `i32` blocks and its ECB, CBC, CFB and OFB
  modes, with laws on how the modes treat each block.
- `euclid` – Euclid's algorithm, the coprimality test and modular inverses of
  the affine cipher, with Bézout's identity.
- `matrix` – square matrices of side 1 to 3: determinant, transpose, minors,
  adjugate, element-wise and modular operations, and the inverse modulo `m`.
- `des` – the initial permutation and the key permutations of DES, bit by bit.
- `rsa_keys` – RSA key pair generation through the `rsa` crate.
- `auth`, `text` – password hashing (SHA3-256 with a salt), recovery tokens
  and session tokens (JWT).
- `mail` – the recovery and verification e-mails (sender, recipient, subject,
  HTML body), with the link parsed by the `url` crate.
- `service` – the login service as decisions: each endpoint step takes what
  the database, the clock or the mail server produced and returns the next
  step or the reply.
- `arith` – truncating division and remainder on `i32`, as Rust computes them.

`app/` is the program around the library: the demonstration commands
(`des`, `hill`, `euclid`, `matrix`, `rsa`) and the HTTP server (`serve`), which
talks to SQLite and sends the library's e-mails over SMTP, and follows the steps that `service` returns.
Floating-point matrix inverses live there too.

`tests/` runs the library on concrete values.
