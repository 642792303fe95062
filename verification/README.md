# seamingly_epic

Photometric seam correction for images assembled from independently
generated tiles. The integer side of the method is a verified library; the
floating-point photometry and all file handling form a thin program around it.

## Library (`src/`, verified)

- `config`, `report`: plain settings and report values.
- `seams`, `layout`: seam lists and the tile layout resolved for an image
  (explicit lines or an equal grid), tile lookup and edges.
- `grid`: the `COLSxROWS` grid shorthand.
- `boundary`: every shared-edge segment of a layout, with the two tiles it
  separates.
- `graph`: connectivity and connected components of the tile graph.
- `sampling`: the pixel positions and bands scanned across each seam, the
  search range around a nominal seam, and the seams next to a pixel.
- `png_format`, `raw_format`: accepted PNG and float32 formats, sample
  layout and byte order.
- `png_codec`: the `png` crate's decoder and encoder behind three trusted
  wrappers, and the verified header check, store sizing and decoding
  around them.
- `cross`: registration of overlap references and their search ranges.
- `text`: decimal text of integers.

## Program (`app/`)

The `seamingly-epic` command: argument parsing, files and memory maps, the
robust estimates, the least-squares tile gains and the DCT Poisson field, all in floating point, calling the library for every layout,
sampling, graph and format decision.
