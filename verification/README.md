# example_report

Builds the data behind the examples report site: which examples ran, on which
platforms, with what outcome, which screenshots changed, and which examples look
flaky.

- `src/` is the verified library: reading run folder and result file names,
  recording result lists, screenshot comparisons and rerun logs, settling
  flakiness, ordering examples and wasm platforms, and turning a run into the
  shape the templates read.
- `app/` is the program around it: command-line arguments, walking the results
  directory, fetching comparisons from pixel-eagle, and rendering the templates.
