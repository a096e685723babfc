# xdf-mcp

An MCP server that publishes an archive of X68000 disk images: full-text search,
reading and listing files, PIC pictures as PNG, metadata queries, and bundles of
files as ZIP downloads.

`src/` is the library, verified with Verus. It decides; it neither opens images nor
serves requests:

- `archive_path`, `read`, `listing`: paths with `!/` members, text or hexadecimal
  content, directory listings
- `select`, `globs`, `walk`, `bundle`, `extract`: which files a list of patterns takes,
  the size limit, names in the ZIP, download addresses, errors
- `view`, `single`: checking, shrinking and encoding pictures; the height is computed in
  single precision, modelled with integers
- `auth`, `http`, `version`: bearer tokens, endpoint layout, protocol version
- `query`, `search`, `summary`, `defaults`: requests to the index
- `text`: the text operations that the rest is stated with

Functions named `law_…` state properties that hold across several functions. What is
believed without proof stands in the `external_body` functions and the
`assume_specification` items, each with a comment that says what it claims.

`app/` is the program around the library: arguments, transports, serialisation, disk
images and the file system.
