# tuner-codec

Broadcast formats for Japanese terrestrial digital television receivers, with
contracts proved by Verus. Nothing here knows about a device, a bus, a file or
where keys come from: everything is a function of the bytes it is handed.

| Module | What it holds |
| --- | --- |
| `channel` | the terrestrial channel plan: physical channels and centre frequencies |
| `ts` | 188-byte transport packets, and a framer that restores packet alignment in arbitrarily chunked input |
| `pes` | packetized elementary streams: timestamps and their unwrapping (`timestamp`), header parsing (`packet`), reassembly of one identifier (`assembler`), routing of many (`demux`), and what these promise over runs of packets (`laws`), sequences of calls (`session`) and whole feeds (`feed`) |
| `multi2` | the MULTI2 block cipher (`cipher`), its chaining mode (`cbc`), and the transport-packet descramble procedure (`packet`) |
| `descramble` | counts of what a descrambler did with each packet |

Every executable function states its result exactly, over mathematical models of
the data: a cipher, a clock, an assembler and a router each have a view, and each
operation is a step from one view to the next. Properties that span several
operations are public proof functions whose names begin with `law_`; they stand
beside the definitions they speak of.

`app/` adds `std` error and display support around the library.
