# pkcs12

PKCS#12 archives (`.p12` and `.pfx` files), verified with Verus.

- `PfxBuilder` makes an archive of a certificate, its private key and any CA
  certificates. Bags are encrypted with PBES2 (PBKDF2-HMAC-SHA-256, AES-256-CBC), and
  an HMAC-SHA-256 under a key from the key derivation of PKCS#12 protects the whole.
- `parse_pfx` verifies the MAC of an archive (HMAC-SHA-1 or HMAC-SHA-256), decrypts
  its bags (PBES2, or PKCS#12's own scheme with three-key Triple-DES), and returns the
  first private key and all certificates.

```rust
let pfx_der = PfxBuilder::new("hunter2")
    .with_cert(&cert_der)
    .with_key(&key_der)
    .build_with_rng(&random)?;

let contents = parse_pfx(&pfx_der, "hunter2")?;
assert!(contents.mac_verified);
```

## Layout

| Where | What |
|---|---|
| `src/builder.rs` | the builder, and `build_outcome`: what it returns |
| `src/parser.rs` | the parser, and `parse_outcome`: what it returns |
| `src/round_trip.rs` | the proof that the parser undoes the builder |
| `src/laws.rs` | what else holds of the library as a whole |
| `src/kdf.rs` | the key derivation of PKCS#12 |
| `src/asn1.rs`, `src/oid.rs` | DER elements, integers and object identifiers |
| `src/pfx.rs`, `src/mac_data.rs`, `src/safe_bag.rs`, `src/cert_bag.rs`, `src/pbe_params.rs` | the structures of PKCS#12 |
| `src/cms.rs`, `src/pbes2.rs`, `src/hash.rs`, `src/tdes.rs`, `src/secret.rs` | what is taken from other crates, behind contracts |
| `app/` | drawing the random octets of an archive, and errors that can be displayed |

What the cryptographic primitives compute is named and not stated; that decryption
undoes encryption is taken from the crate that does both.
