# tray_proxy

The rules behind the proxy part of a system tray, verified with Verus.

- `menu_id`, `percent`: identifiers of menu entries, and reading them back.
- `delay`, `decimal`, `text`: delay states, their texts and colours, node titles.
- `config`: settings of the delay test.
- `proxies`, `latency`, `group_test`: what is known of nodes, and the course of a delay test.
- `menu`, `menu_laws`: group submenus and their order.
- `style`: which part of a title is drawn in which colour.
- `speed`, `speed_task`: speed of proxied connections, and the task that shows it.

`src/` is the verified library. Each module ends with the laws that hold of it, as public proof
functions. Percent-encoding is done by the `percent-encoding` crate and white space is told by
`char::is_whitespace`; what is believed of these calls stands at the items that make them.

`app/` holds native menus, background tasks, the conversion from the core's models, and the trait
through which other parts of the application offer their services.
