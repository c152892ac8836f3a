# jz_office_core

Reading core for Office Open XML documents (DOCX, PPTX, XLSX) with its
rules proved in Verus.

`src/` is the verified library: the ZIP package (central directory scan,
entry limits, read budgets), relationship resolution that never leaves the
package root, owned XML trees with their depth and node limits, and the
integer and text rules of the three formats: DOCX style inheritance,
headings, rectangular table grids and flow elements; PPTX placeholder inheritance,
theme colour mapping, fills, list numbering, table shapes, line chart structure and
caches, the part cache and the presentation budgets; XLSX worksheet layout (cells, column and row styles, extents), cell
references, merged ranges, shared strings, styles, number and date formats and the
workbook budgets. Calls into `zip` and `roxmltree` go through small
trusted wrappers in `src/package.rs`, `src/xml.rs` and `src/outside.rs`.

`app/` holds what works in floating point (layout in points, colour
transforms, gradients, chart drawing), file access and the JSON model.

`tests/` runs the library on concrete documents.
