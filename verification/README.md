# p2p

A node that shares files with its peers and downloads files from them. A file is
described by a manifest: its name, its size and the SHA-1 digest of each of its
pieces. The digest of the manifest's JSON document, the infohash, is the name
under which peers find the file in a distributed hash table.

- `src/` is the library. Everything in it is verified by Verus: the manifests, their
  documents and frames, the chunks of a download, the sessions between peers, the greeting
  of peers, the routing table. Calls into other crates stand behind small wrappers
  whose doc comments say what is believed of them.
- What talks to the network or to the disk is written as a step-by-step machine:
  it names the next action, and is told what became of it. Its contract says which
  action follows which event.
- `app/` is the program that performs these actions.
- `tests/` run the library on concrete values.
