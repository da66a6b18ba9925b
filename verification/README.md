# inline_text

The logic of a run of inline text on screen that can be selected, highlighted and
clicked, verified with Verus.

- `src/length.rs`: the arithmetic of lengths, `Length`, its laws, `OrderedLength`, and a
  fixed point implementation of both, `Pixels`
- `src/geometry.rs`: points and rectangles
- `src/text.rs`: byte offsets into UTF-8 text
- `src/layout.rs`: lines, rows and glyphs of laid out text
- `src/selection.rs`: which characters a drag or a multiple click selects
- `src/scan.rs`: the byte range that a drag selects in a layout
- `src/inline.rs`: the inline text: styles, links, selection, what to paint, and events
- `src/laws.rs`: laws that relate the above
- `src/row_laws.rs`: laws on the places that an inline text reports
- `app/`: the element for gpui, around the library

The library is generic over the number type of the toolkit. The contracts name each
arithmetic operation instead of assuming exact arithmetic, so they hold of floating point
lengths too; `app/px.rs` supplies gpui's. The laws over
`OrderedLength` hold of the types that implement it, which here is `Pixels` only: floating
point numbers break some of what it asks for, by NaN and by the two zeros.
