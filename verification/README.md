# swir

SWIR is a sidecar for event-driven services: a client application talks to it over HTTP,
and it routes publish and subscribe jobs to brokers, key-value jobs to stores, and service
invocations to other services.

The library in `src/` holds the sidecar's decisions, each with a contract proved by Verus:

- `config`, `channels`: the configuration, the plan of in-memory channels that route each
  client topic to a broker and each client database to a store, and which channel each
  store reads;
- `frontend`: how the client HTTP interface takes a request apart and what it answers;
- `subscriptions`, `brokers`, `ordering`: the subscription registry each broker keeps, what a
  broker does with a job, Kinesis shard bookkeeping, and the order of subscriptions;
- `persistence`: which databases a store keeps and how its answers are reported;
- `discovery`, `invocation`, `rest_client`: announced and resolved service names, discovery
  records and their listeners, the endpoints of resolved services, and calls made to the
  client application;
- `structs`, `text`, `metrics`: shared types, text helpers and response counters.

The library plans NATS channels as a build with NATS support does.

`app/` is the program around it: it reads the configuration, opens the channels, serves the
HTTP interface with hyper, keeps each broker's subscriptions, runs Redis stores and sends
requests to the client application. It carries no Kafka, NATS, Kinesis, DynamoDB, discovery
or gRPC client and no HTTPS: a job that needs one of them is answered with an error.
`tests/` exercises the library on concrete values.
