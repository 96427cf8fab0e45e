# acme_types

The data model of an ACME client (RFC 8555), written in Verus: what it computes is stated in
contracts and proved.

- `src/csr.rs`, `src/request.rs`, `src/validation.rs`: certificate signing requests, what is read
  out of them, and the checks of their names, signature and key against an order and an account.
  `src/acceptance.rs` proves what these checks amount to.
- `src/certificate.rs`: certificate identifiers for renewal information, and revocation.
- `src/jwk.rs`, `src/jose.rs`: JSON Web Keys with their thumbprints, and signed requests.
- `src/identifier.rs`, `src/ip.rs`, `src/order.rs`, `src/account.rs`, `src/problem.rs`: the rest of
  the protocol's objects, with their texts.
- `src/base64url.rs`, `src/json.rs`, `src/text.rs`, `src/octets.rs`: encodings.

`app/` holds what stands around the library: (de)serialization, files, HTTP responses and times.
Functions that need their input to fit in memory once it is encoded say so with `encodable`; call
`base64url::is_encodable` first where the input can be that long.
