# redrob

The verified core of an agentic raster graphics editor, written in Verus.

- `src/agent/`: the assistant side: server-sent-event framing, chat-stream
  accumulation under byte limits, device-authorization replies and polling
  decisions, and the agent session as a state machine that asks its driver
  to call the provider, the approval gate and the tool executor.
- `src/canvas/`: the editor side: pixels, selections, integer filters and
  their selection-limited application, the timeline and frame removal with
  its cels, the node tree (canonical order, insertion, moves, checks),
  whole-document node validation, typed transactional commands on the
  timeline, node structure and properties and the selection, an editor that
  records every accepted command for undo and redo (singly or in groups),
  undo history,
  fixed-point text and path coverage, and the file-format boundaries (format
  detection, ORA archive checks and reading, the `stack.xml` structure read
  from XML events, export loss planning, SVG and `stack.xml` guards).
- `src/text.rs`: UTF-8 lengths, trimming and decimal formatting shared by both.
- `app/`: what the library leaves to its host: JSON wire formats, the
  asynchronous drivers, floating-point compositing, and `stack.xml`
  tokenizing with `quick-xml` (with opacity read as a float).
- `tests/`: tests of the library through its public interface.

Not here: the pixel-holding document model and its project codec, image
encoders and decoders, brush strokes, canvas resampling and the
floating-point filters; the commands the library applies are those that
need none of these.
