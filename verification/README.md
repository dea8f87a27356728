# pdf-to-markdown

A command-line tool that turns PDF documents into Markdown through document
parsing services (PaddleOCR, Zhipu, MinerU), with its core written in Verus.

- `src/` is the verified library: the PDF object model and the reading of
  metadata, dates, strings and outlines; page selection; the cache index and
  its keys; the credential store and its sealing; page-range parsing, size
  formatting and the other decisions of the command line; and, for each
  service, the requests it is sent, the decision taken on each of its answers,
  and the assembly of its result (choosing the first Markdown file,
  renaming image references). Calls into outside crates (SHA-256, AES-GCM,
  regular expressions, ZIP reading, lowercasing) stand behind small trusted
  wrappers whose contracts name what they return.
- `tests/` exercises the library on concrete values.
- `app/` is the program around it: argument parsing, HTTP, files, PDF loading
  with lopdf, rendering with pdfium, and the JSON and YAML forms of the
  library's types.
