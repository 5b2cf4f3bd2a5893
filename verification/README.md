# frand_home

A tree of nodes whose states travel between a server and its clients as
packets, with the rules that react to them, written in Verus.

- `src/` is the verified library:
  - `state`, `packet`, `node`: the state tree, its bytes, and nodes that
    emit and apply packets;
  - `app`, `common`, `frontend`: the trees of the demo and the reactions and
    client steps over them;
  - `backend`: routing, the socket server's switchboard and frame handling,
    settings and TLS material;
  - `codegen`: what the `node` and `component` attributes read and
    generate from, and the grammar of their arguments.
- `app/` is the program around it: the actix server, the yew front end and
  the token plumbing of the attributes.
- `tests/` runs the library on concrete values.
