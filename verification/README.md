# Glitch

A video filter for OBS Studio that maps an expression over the pixels of every frame. Clients
of the OBS WebSocket API can change the expression for good or for a while, switch filters on
and off, and ask for their state.

The logic is a library written in Verus, and its contracts are proved. Ordinary Rust around it
talks to OBS.

## Layout

| Path | Contents |
|------|----------|
| `src/eval.rs` | one evaluation pass over a frame, row by row |
| `src/frame.rs` | moving pixels between padded surfaces and packed frames |
| `src/filter.rs` | a filter's settings, expressions, pulse timer and snapshot |
| `src/filter/video.rs` | applying the expressions to frames, and to asynchronous sources |
| `src/filter/render.rs` | rendering a synchronous source, step by step |
| `src/filter/history.rs` | what holds of a filter over its whole life |
| `src/command.rs` | commands, and the queue that brings them to the filters |
| `src/snapshot.rs` | what the filters show of themselves, by source |
| `src/request.rs` | the WebSocket requests and their answers |
| `src/module.rs` | the plugin's API version |
| `tests/` | tests of the library |
| `app/` | the plugin: OBS callbacks, graphics resources, WebSocket handlers |

## What is assumed

The expression compiler and evaluator of glitch-core, and the clock, are functions that the
library is handed. Contracts speak of what these functions return. Five items are believed
without proof, each with a comment that says what is claimed: the declaration of rand's
`StdRng`, its seeding and the name of what that returns, rayon's parallel loop over the rows of
a frame, and `Arc::clone`.

## What is proved beyond single functions

- With an evaluator whose replies depend on what it is asked alone, the same expression, frame
  and seed give the same pixels, however the rows are spread over threads, and RGBA and BGRA
  frames with the same pixels are filtered alike.
- A pulse reverts to what was there before it, also when several follow each other; an
  expression that is set stays.
- A command for every filter reaches each of them once; one for a source reaches no other.
- A frame written to a surface is read back, and padding is left alone.
- Every render ends, each of its steps finds the resources that it works on, and what it
  begins or maps it finishes or unmaps. Frames are skipped by the interval.
- A source that has sent one asynchronous frame is never rendered through the filter again.
- Every expression that a filter holds is what the compiler made of its text.
- A filter that has shown itself is what a client is told of its source, and no other filter
  takes it off the list.
- Commands act on the frame that they wait before.
