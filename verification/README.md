# aboutme

A portfolio site that also hands quotes to clients. The site signs visitors in
with Discord, shows each client the quotes addressed to them, lets the
administrator write and edit quotes through a form, and offers the same quotes
to an assistant through tool calls.

`src/` is the verified library, written in Verus:

- `text`, `decimal`: characters and integers as `str::trim`, `str::parse` and
  `Display` handle them.
- `fields`: submitted form fields, each name once.
- `form`: the quote form, read from its fields and checked into a quote to store.
- `quotes`: what a client sees of a quote: reference, dates, estimates, prices.
- `admin`: the administrator's quote list, recipients and the edit form.
- `auth`: where a sign-in may return to, the callback checks, stored token
  digests and the signed-in account.
- `mcp`: quotes as the assistant tools write and read them.
- `site`: the home page's project list and notices.

`app/` is the server around it: routing, templates, database access, the Discord
exchange and the tool endpoint. It expects the site's `templates/`,
`migrations/`, `content/` and `static/` directories beside it.
