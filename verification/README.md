# multipath_xr

Orchestration of experiments on multi-path transport: environments to run them in, the
experiments themselves, and the metrics that they give.

The library under `src/` is verified with Verus. It decides and computes; it does no input or
output.

- `virtual_wall`: bare-metal resources that are reserved with the SLICES command line tool, their
  topologies and addresses.
- `virtual_wall_lite`: an experiment that exists already, read from its manifest and reached over
  SSH.
- `big_virtual_wall`: overlays of virtual nodes on those resources, planned and written as shell
  scripts.
- `controller`: experiments, their actions, their network graph, the agents on the nodes, and the
  metrics logger.
- `text`, `forms`, `numerals`, `ipv4`, `quoting`, `sorting`, `rearranging`, `batching`,
  `string_map`, `sorted_map`: what these rest on.

What is known of other crates and of `std` beyond the specifications of vstd stands in contracts
without a proof, each with a comment that names the function it speaks of.

The program under `app/` runs the processes, reads and writes the files and serves the web
interface around the library. Called as `vw` it manages a Virtual Wall, called as `overlay` it
manages overlays, and otherwise it is the controller.
