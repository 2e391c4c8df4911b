# kafka_broker

The core of a small Kafka broker, verified with Verus.

- `src/` is the verified library: readers for the request wire format and
  the cluster metadata log (`protocol`, `api::requests`, `requests`,
  `stream::request`), the version negotiation rules (`api::capabilites`,
  `utils`), and the writers of `ApiVersions` and `DescribeTopicPartitions`
  responses (`api::responses`, `responses`, `stream::res`,
  `stream::response`). `stream::respond` answers one request frame.
  Output buffers are the `bytes` crate's `BytesMut`; `buffer` states what
  its calls do.
- `app/` is the server: it accepts connections with `tokio`, reads each
  frame, hands it to the library and writes the answer back.
- `tests/` runs the library on concrete inputs.
