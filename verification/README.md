# camelot_rabbitmq_controller

An observe-only reconciler for a `RabbitmqTopology` resource (`camelot.pleme.io/v1`):
it reads a RabbitMQ broker's vhosts and queues from the management HTTP API,
compares them with the declared topology and writes the drift to the resource's
status.

- `src/` is the verified library: the resource's spec and status types (`crd`), the
  comparison and its drift report (`observed`), the management API endpoints and
  read errors (`fetch`), the reconcile decisions and status patches (`reconcile`),
  and the laws that hold of every comparison (`properties`).
- `app/` is the controller binary: the serde/schema/`CustomResource` copies of the
  types, the HTTP reads, the status writes and the `kube` controller loop that
  carries out what `reconcile_step` decides.
- `tests/` runs the library on concrete topologies and reconcile steps.
