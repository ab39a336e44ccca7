# os_paint

The rules behind OS-Paint, a real-time collaborative whiteboard: a fixed
3200×2400 canvas shared by everyone in a room, pen / point eraser / stroke
eraser tools, 50 steps of undo and redo, a palette of recently picked colours,
live peer cursors, and lobbies joined by a 6-digit room code.

`src/` is a library verified with Verus. It holds everything the whiteboard
decides: how strokes are drawn and erased, how undo and redo move whole
canvas states, how a peer's canvas takes in the packets other peers send
(newer snapshots win, stale ones are ignored), how the pause menu reacts to
input, and the text it builds (room codes, default names, guest labels, room
addresses). Colours are kept as the bit patterns of their float channels, so
the library carries them exactly without computing with floats.

`app/` is the program around it: the macroquad window and its drawing, mouse
and keyboard input, the floating-point viewport (pan and zoom), the colour
wheel, the bincode wire format, and the matchbox WebRTC sockets.

`tests/` runs the library on concrete inputs.
