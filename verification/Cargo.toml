[package]
name = "single_player_game_physics"
version = "0.1.0"
edition = "2021"
publish = false

[dependencies]
awsm-renderer = "0.11"
awsm-renderer-scene = "0.11"
awsm-renderer-scene-loader = { version = "0.11", features = ["http"] }
dominator = "0.5"
futures = "0.3"
futures-signals = "0.3"
glam = "0.32"
gloo-net = "0.6"
serde = { version = "1", features = ["derive"] }
serde-wasm-bindgen = "0.6"
tracing = "0.1"
tracing-subscriber = { version = "0.3", features = ["env-filter"] }
tracing-web = "0.1"
wasm-bindgen = "0.2"
wasm-bindgen-futures = "0.4"
web-sys = { version = "0.3", features = ["Blob", "BlobPropertyBag", "CssStyleDeclaration", "DedicatedWorkerGlobalScope", "Document", "DomRectReadOnly", "DomTokenList", "Element", "ErrorEvent", "Event", "EventTarget", "Gpu", "GpuAdapter", "GpuAdapterInfo", "GpuSupportedLimits", "HtmlCanvasElement", "HtmlElement", "HtmlInputElement", "KeyboardEvent", "Location", "MediaQueryList", "MessageEvent", "MouseEvent", "Navigator", "Node", "OffscreenCanvas", "Performance", "PointerEvent", "RequestCache", "ResizeObserver", "ResizeObserverEntry", "Storage", "Url", "UrlSearchParams", "WheelEvent", "Window", "Worker", "WorkerGlobalScope", "WorkerNavigator", "WorkerOptions", "WorkerType", "console"] }
