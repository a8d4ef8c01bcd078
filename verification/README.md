# comicshelf

A comic-library web server. The library under `src/` holds the logic, verified with Verus:

- `tree`: the folder tree built from the rows of the catalogue database (`create_graph`), and the view of one folder that the front end receives (`FrontendNode::from_graph`). `tree_laws` proves what every such tree satisfies.
- `graph`: the `petgraph` graph that holds the tree, used through trusted wrappers.
- `paths`: splitting catalogue paths on `\`.
- `cover`: the decisions taken while extracting covers from `.cbz`/`.cbr` archives.
- `records`: the scanned entries and the catalogue rows.
- `auth`, `theme`, `scan`, `matchlogic`: the login rules, the page theme, scan timing, disk matching.

`app/` is the server itself: HTTP handlers (actix-web), the SQLite catalogue (rusqlite), the archive, image and WebP work, and the front-end pages.
