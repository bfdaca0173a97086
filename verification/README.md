# aws-ses-relay

A forwarder for email that Amazon SES receives: SES stores the raw message in S3
and invokes a Lambda function, which rewrites the headers so that SES will accept
the message for sending, and sends it on to the configured destinations.

- `src/` is the library: all that the forwarder decides and computes, with
  contracts that Verus proves. It makes no call to AWS.
  - `config`: the configuration, read from environment variables; every problem
    is reported at once.
  - `forward`: recipients to destinations, and the spam/virus gate.
  - `header`, `rewrite`: the header block of a raw message, and what becomes of
    it, byte for byte.
  - `handler`: handling an event as a sequence of steps, each of which names the
    call to make next.
  - `idempotency`: where a marker goes, and what the answer to a conditional
    write means.
  - `json`: the parse of `FORWARD_MAPPING`. What is known of `serde_json` is
    stated there, and is taken on trust.
  - `*_laws`: what holds of these as a whole, as proof functions.
- `app/` is the Lambda function: it reads the event, makes the calls that the
  steps ask for, and logs.
- `tests/` runs the library.
