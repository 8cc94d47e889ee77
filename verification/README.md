# tv

A small, keyboard driven viewer for Typst and Markdown documents. It compiles both formats, renders
the current page in a native window, and refreshes after edits.

`src/` is the library: everything that the viewer decides or computes, proved with
[Verus](https://github.com/verus-lang/verus). `app/` is the program around it: windows, files, the
Typst compiler, the clipboard, and what needs floating point. `tests/` runs the library with the
crates it calls. The Typst crates are large, and neither the library nor its tests need them, so
`Cargo.toml` leaves them out: to build the program, add `typst`, `typst-kit`, `typst-layout` and
`typst-render`.

Markdown is typeset as a paper: US Letter pages, a ruled title, compact serif text, an abstract,
tables, and page numbers. The first heading of level one is the title; otherwise the file name is. A
long opening paragraph becomes the abstract. Embedded HTML images, centred paragraphs, text
formatting, links and line breaks are rendered; other HTML is shown as it is written, and so is the
text between tags, white space included. Math is shown verbatim, since Markdown and Typst write it
differently.

## What is proved

- The Typst source of a document is closed in itself: no bracket or string literal that a document
  holds can reach out of the place where its text is shown (`balance`), and a string literal reads
  back as the text it was written for (`escape`).
- An element is rendered from what it encloses alone, and two parts of a document one after the other
  (`nesting`).
- A search finds every place at which the words of a query stand in lower case, in order and without
  overlap, and depends on nothing but these words; the case of ASCII letters does not matter
  (`selection`, `search`).
- Whatever key is pressed, the current page is a page of the document, the matches are those of the
  query, and the page stays within the limits of its movement; a new document is searched for the
  same query (`viewer`).
- Each pixel of the window is given by the page, its highlights and the search bar (`canvas`,
  `paint`, `bar`).

## Controls

| Input | Action |
| --- | --- |
| `q` | Quit |
| `Esc` | Cancel or clear search; quit when no search is active |
| `n`, `Space`, `Page Down` | Next page |
| `p`, `Backspace`, `Page Up` | Previous page |
| `g`, `Home` | First page |
| `G`, `End` | Last page |
| `j` `k`, vertical arrows, mouse wheel | Scroll; continue to adjacent page at an edge |
| `h` `l`, horizontal arrows | Pan horizontally |
| `+`, `-` | Zoom around fit size |
| `f`, `0` | Fit page to window and reset pan |
| `/`, then type and press `Enter` | Search all pages; matches are highlighted |
| `n`, `N` after a search | Next or previous match |
| Drag from text | Select text |
| Click | Clear selection |
| `Ctrl+C` | Copy selected text |
